//! How a native image-generation run ends: the runner's fate becomes the
//! job's status, message and error, and a finished run is accepted only if
//! it wrote a PNG of the requested size.

use vstd::prelude::*;
use crate::chat::{last_useful_line, useful_error_log};
use crate::text::{ascii_lower, ascii_lower_chars, chars_equal, chars_of, concat_chars, decimal, decimal_chars, string_of};

verus! {

broadcast use vstd::string::group_string_axioms;

fn cat(a: &str, b: &str) -> (r: String)
    ensures
        r@ == a@ + b@,
{
    string_of(&concat_chars(&chars_of(a), &chars_of(b)))
}

fn dec32(n: u32) -> (r: String)
    ensures
        r@ == decimal(n as nat),
{
    string_of(&decimal_chars(n as u64))
}

/// What became of the runner process.
#[derive(Clone, Debug)]
pub enum RunnerOutcome {
    /// It could not be started.
    SpawnFailed(String),
    /// The job was cancelled and the runner killed.
    Cancelled,
    /// The time limit passed and the runner was killed.
    TimedOut,
    /// Waiting for it failed and it was killed.
    WaitFailed(String),
    /// It exited; `status` is its exit status as shown.
    Exited { success: bool, status: String },
}

/// How the job ends, or that the output must be checked first.
#[derive(Clone, Debug, PartialEq, Eq)]
pub enum RunnerEnd {
    /// The runner succeeded: check the image before reporting.
    CheckOutput,
    /// The job ends now with this status (`cancelled` or `failed`), message
    /// and error; a partial output file is removed first when asked.
    Finished { status: String, message: String, error: Option<String>, remove_output: bool },
}

pub ghost enum EndModel {
    CheckOutput,
    Finished(Seq<char>, Seq<char>, Option<Seq<char>>, bool),
}

pub open spec fn opt_view(o: Option<String>) -> Option<Seq<char>> {
    match o {
        Some(s) => Some(s@),
        None => None,
    }
}

impl View for RunnerEnd {
    type V = EndModel;

    open spec fn view(&self) -> EndModel {
        match self {
            RunnerEnd::CheckOutput => EndModel::CheckOutput,
            RunnerEnd::Finished { status, message, error, remove_output } => EndModel::Finished(
                status@,
                message@,
                opt_view(*error),
                *remove_output,
            ),
        }
    }
}

pub open spec fn failed(message: Seq<char>, remove: bool) -> EndModel {
    EndModel::Finished("failed"@, message, Some(message), remove)
}

/// The end of a run from the runner's fate, its time limit and the logs it
/// left. A runner that never started leaves no output to remove.
pub open spec fn runner_end(outcome: RunnerOutcome, timeout_secs: u64, stderr_log: Seq<char>, stdout_log: Seq<char>) -> EndModel {
    match outcome {
        RunnerOutcome::SpawnFailed(e) => failed("Failed to start image runner: "@ + e@, false),
        RunnerOutcome::Cancelled => EndModel::Finished("cancelled"@, "Image generation cancelled"@, None, true),
        RunnerOutcome::TimedOut => failed(
            "Image generation timed out after "@ + decimal(timeout_secs as nat) + " seconds"@,
            true,
        ),
        RunnerOutcome::WaitFailed(e) => failed("Failed while waiting for image runner: "@ + e@, true),
        RunnerOutcome::Exited { success, status } => if success {
            EndModel::CheckOutput
        } else {
            let log = last_useful_line(stderr_log, stdout_log);
            failed(
                "Image runner exited with "@ + status@ + if log.len() == 0 {
                    Seq::<char>::empty()
                } else {
                    ": "@ + log
                },
                true,
            )
        },
    }
}

fn failed_exec(message: String, remove: bool) -> (r: RunnerEnd)
    ensures
        r@ == failed(message@, remove),
{
    let error = message.clone();
    RunnerEnd::Finished { status: "failed".to_string(), message, error: Some(error), remove_output: remove }
}

/// Decide how a run ends.
pub fn native_runner_end(outcome: RunnerOutcome, timeout_secs: u64, stderr_log: &str, stdout_log: &str) -> (r: RunnerEnd)
    ensures
        r@ == runner_end(outcome, timeout_secs, stderr_log@, stdout_log@),
{
    match outcome {
        RunnerOutcome::SpawnFailed(e) => failed_exec(cat("Failed to start image runner: ", e.as_str()), false),
        RunnerOutcome::Cancelled => RunnerEnd::Finished {
            status: "cancelled".to_string(),
            message: "Image generation cancelled".to_string(),
            error: None,
            remove_output: true,
        },
        RunnerOutcome::TimedOut => {
            let m = cat(cat("Image generation timed out after ", string_of(&decimal_chars(timeout_secs)).as_str()).as_str(), " seconds");
            failed_exec(m, true)
        },
        RunnerOutcome::WaitFailed(e) => failed_exec(cat("Failed while waiting for image runner: ", e.as_str()), true),
        RunnerOutcome::Exited { success, status } => {
            if success {
                RunnerEnd::CheckOutput
            } else {
                let log = useful_error_log(stderr_log, stdout_log);
                let head = cat("Image runner exited with ", status.as_str());
                let m = if log.as_str().is_empty() {
                    head
                } else {
                    cat(head.as_str(), cat(": ", log.as_str()).as_str())
                };
                proof {
                    if log@.len() == 0 {
                        assert(head@ + Seq::<char>::empty() =~= head@);
                    }
                }
                failed_exec(m, true)
            }
        },
    }
}

/// The PNG signature.
pub open spec fn png_signature() -> Seq<u8> {
    seq![0x89u8, 0x50u8, 0x4eu8, 0x47u8, 0x0du8, 0x0au8, 0x1au8, 0x0au8]
}

/// A big-endian 32-bit number from four bytes.
pub open spec fn be_u32(b: Seq<u8>, at: int) -> nat {
    (b[at] as nat) * 16777216 + (b[at + 1] as nat) * 65536 + (b[at + 2] as nat) * 256 + b[at + 3] as nat
}

/// Width and height from the first 24 bytes of a PNG file (its signature
/// and image header); anything without the signature is refused.
pub open spec fn png_size(header: Seq<u8>) -> Result<(nat, nat), Seq<char>> {
    if header.take(8) != png_signature() {
        Err("Generated output is not a valid PNG"@)
    } else {
        Ok((be_u32(header, 16), be_u32(header, 20)))
    }
}

fn be_u32_exec(b: &[u8], at: usize) -> (n: u32)
    requires
        at + 4 <= b@.len(),
    ensures
        n as nat == be_u32(b@, at as int),
{
    let x0 = b[at] as u32;
    let x1 = b[at + 1] as u32;
    let x2 = b[at + 2] as u32;
    let x3 = b[at + 3] as u32;
    assert(x0 * 16777216 + x1 * 65536 + x2 * 256 + x3 <= 0xffff_ffff) by (nonlinear_arith)
        requires
            x0 <= 255,
            x1 <= 255,
            x2 <= 255,
            x3 <= 255,
    ;
    x0 * 16777216 + x1 * 65536 + x2 * 256 + x3
}

/// Width and height of a PNG from its first 24 bytes.
pub fn png_dimensions(header: &[u8]) -> (r: Result<(u32, u32), String>)
    requires
        header@.len() == 24,
    ensures
        match png_size(header@) {
            Ok((w, h)) => r matches Ok((rw, rh)) && rw == w && rh == h,
            Err(e) => r matches Err(m) && m@ == e,
        },
{
    let sig: [u8; 8] = [0x89u8, 0x50u8, 0x4eu8, 0x47u8, 0x0du8, 0x0au8, 0x1au8, 0x0au8];
    let mut i: usize = 0;
    while i < 8
        invariant
            i <= 8,
            header@.len() == 24,
            sig@ == png_signature(),
            forall|k: int| 0 <= k < i ==> header@[k] == sig@[k],
        decreases 8 - i,
    {
        if header[i] != sig[i] {
            assert(header@.take(8)[i as int] != png_signature()[i as int]);
            return Err("Generated output is not a valid PNG".to_string());
        }
        i += 1;
    }
    assert(header@.take(8) =~= png_signature());
    Ok((be_u32_exec(header, 16), be_u32_exec(header, 20)))
}

/// A generated image must have the requested size.
pub fn check_image_size(width: u32, height: u32, expected_width: u32, expected_height: u32) -> (r: Result<(), String>)
    ensures
        width == expected_width && height == expected_height ==> r is Ok,
        !(width == expected_width && height == expected_height) ==> (r matches Err(m) && m@
            == "Generated image dimensions were "@ + decimal(width as nat) + "x"@ + decimal(height as nat)
            + "; expected "@ + decimal(expected_width as nat) + "x"@ + decimal(expected_height as nat)),
{
    if width == expected_width && height == expected_height {
        return Ok(());
    }
    let a = cat(cat(cat("Generated image dimensions were ", dec32(width).as_str()).as_str(), "x").as_str(), dec32(height).as_str());
    let b = cat(cat(cat("; expected ", dec32(expected_width).as_str()).as_str(), "x").as_str(), dec32(expected_height).as_str());
    Err(cat(a.as_str(), b.as_str()))
}

/// How a run that wrote its output ends: with the image, or failed (its
/// output removed) when the output could not be accepted.
pub fn output_check_end(check: Result<(), String>) -> (r: RunnerEnd)
    ensures
        match check {
            Ok(()) => r@ == EndModel::Finished("completed"@, "Image ready"@, None, false),
            Err(e) => r@ == failed(e@, true),
        },
{
    match check {
        Ok(()) => RunnerEnd::Finished {
            status: "completed".to_string(),
            message: "Image ready".to_string(),
            error: None,
            remove_output: false,
        },
        Err(e) => failed_exec(e, true),
    }
}

/// May a generated image be shown? It must lie inside the configured
/// image folder, be a `.png` (in any ASCII case), and be at most 50 MiB.
pub fn check_generated_image(inside_output_dir: bool, extension: Option<&str>, size_bytes: u64) -> (r: Result<(), String>)
    ensures
        !(inside_output_dir && (extension matches Some(e) && ascii_lower(e@) == "png"@)) ==> (r matches Err(m)
            && m@ == "Generated image path is outside the configured image folder"@),
        inside_output_dir && (extension matches Some(e) && ascii_lower(e@) == "png"@) ==> (if size_bytes
            > 52428800 {
            r matches Err(m) && m@ == "Generated image exceeds the 50 MiB display limit"@
        } else {
            r is Ok
        }),
{
    let png = match extension {
        Some(e) => chars_equal(&ascii_lower_chars(&chars_of(e)), &chars_of("png")),
        None => false,
    };
    if !inside_output_dir || !png {
        return Err("Generated image path is outside the configured image folder".to_string());
    }
    if size_bytes > 52428800 {
        return Err("Generated image exceeds the 50 MiB display limit".to_string());
    }
    Ok(())
}

// ---------------------------------------------------------------------------
// Progress messages
// ---------------------------------------------------------------------------

/// The message shown while the runner works through its steps.
pub fn step_message(current_step: u32, total_steps: u32) -> (m: String)
    ensures
        m@ == "Generating image - step "@ + decimal(current_step as nat) + " of "@ + decimal(total_steps as nat),
{
    let t = concat_chars(
        &concat_chars(
            &concat_chars(&chars_of("Generating image - step "), &decimal_chars(current_step as u64)),
            &chars_of(" of "),
        ),
        &decimal_chars(total_steps as u64),
    );
    string_of(&t)
}

/// The message once the chat model is back after an image job that ended
/// with `status`.
pub fn restored_chat_message(status: &str) -> (m: String)
    ensures
        status@ == "completed"@ ==> m@ == "Image ready — chat model restored"@,
        status@ == "cancelled"@ ==> m@ == "Image cancelled — chat model restored"@,
        status@ != "completed"@ && status@ != "cancelled"@ ==> m@ == "Image failed — chat model restored"@,
{
    proof {
        reveal_strlit("completed");
        reveal_strlit("cancelled");
        assert("completed"@[1] != "cancelled"@[1]);
        assert("completed"@ != "cancelled"@);
    }
    let st = chars_of(status);
    if chars_equal(&st, &chars_of("completed")) {
        "Image ready — chat model restored".to_string()
    } else if chars_equal(&st, &chars_of("cancelled")) {
        "Image cancelled — chat model restored".to_string()
    } else {
        "Image failed — chat model restored".to_string()
    }
}

/// The error of an image job whose chat model could not be brought back:
/// the job's own error (or a note that it finished), then why restoring
/// failed.
pub fn restore_failure_message(job_error: Option<&str>, restore_error: &str) -> (m: String)
    ensures
        m@ == match job_error { Some(e) => e@, None => "The image job finished."@ }
            + " Chat model restoration failed: "@ + restore_error@,
{
    let head = match job_error {
        Some(e) => chars_of(e),
        None => chars_of("The image job finished."),
    };
    let t = concat_chars(&concat_chars(&head, &chars_of(" Chat model restoration failed: ")), &chars_of(restore_error));
    string_of(&t)
}

/// The text stored with a generated image in the chat.
pub fn generated_image_caption(width: u32, height: u32, steps: u32, seed: i64) -> (m: String)
    ensures
        m@ == "Generated image — "@ + decimal(width as nat) + "×"@ + decimal(height as nat) + ", "@ + decimal(
            steps as nat,
        ) + " steps, seed "@ + crate::engine::launch::signed_text(seed as int),
{
    let seed_text = if seed < 0 {
        let wide: i128 = seed as i128;
        let m: u64 = (0 - wide) as u64;
        assert(m == -(seed as int));
        concat_chars(&['-'], &decimal_chars(m))
    } else {
        decimal_chars(seed as u64)
    };
    let mut t = concat_chars(&chars_of("Generated image — "), &decimal_chars(width as u64));
    t = concat_chars(&t, &chars_of("×"));
    t = concat_chars(&t, &decimal_chars(height as u64));
    t = concat_chars(&t, &chars_of(", "));
    t = concat_chars(&t, &decimal_chars(steps as u64));
    t = concat_chars(&t, &chars_of(" steps, seed "));
    t = concat_chars(&t, &seed_text);
    string_of(&t)
}

} // verus!

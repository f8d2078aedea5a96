//! The runtime status shown to the user, worked out from what the
//! application knows: the process state, the last launch, the model load
//! and whether the public API answers.

use vstd::prelude::*;
use crate::engine::process::ProcessState;
use crate::runtime::ModelLoadState;
use crate::text::{chars_equal, chars_of, concat_chars, decimal, decimal_chars, string_of, trim, trim_str};

verus! {

broadcast use vstd::string::group_string_axioms;

pub open spec fn opt_view(o: Option<String>) -> Option<Seq<char>> {
    match o {
        Some(s) => Some(s@),
        None => None,
    }
}

/// The llama-server binary shown: the last launch's (trimmed), else the
/// configured one (trimmed), else the managed install if it exists.
pub open spec fn shown_server_path(preview: Option<Seq<char>>, configured: Seq<char>, managed: Option<Seq<char>>) -> Option<Seq<char>> {
    if preview matches Some(p) && trim(p).len() > 0 {
        Some(trim(preview->0))
    } else if trim(configured).len() > 0 {
        Some(trim(configured))
    } else {
        managed
    }
}

/// Which llama-server binary to show; `managed_if_present` is the managed
/// install's path when that file exists.
pub fn resolve_server_path(preview_server_path: Option<&str>, configured: &str, managed_if_present: Option<String>) -> (r: Option<String>)
    ensures
        opt_view(r) == shown_server_path(
            match preview_server_path {
                Some(p) => Some(p@),
                None => None,
            },
            configured@,
            opt_view(managed_if_present),
        ),
{
    match preview_server_path {
        Some(p) => {
            let t = trim_str(p);
            if t.len() > 0 {
                return Some(string_of(&t));
            }
        },
        None => {},
    }
    let c = trim_str(configured);
    if c.len() > 0 {
        return Some(string_of(&c));
    }
    managed_if_present
}

/// The model shown as loaded: the recorded one, or while the server runs,
/// the file name of the last launch's model.
pub fn effective_loaded_model(loaded: Option<String>, is_running: bool, preview_model_file: Option<String>) -> (r: Option<String>)
    ensures
        opt_view(r) == (if loaded is Some {
            opt_view(loaded)
        } else if is_running {
            opt_view(preview_model_file)
        } else {
            None
        }),
{
    if loaded.is_some() {
        loaded
    } else if is_running {
        preview_model_file
    } else {
        None
    }
}

/// A running server with a model counts as loaded, whatever the load
/// tracker last said; otherwise the tracker's state stands.
pub fn effective_load_state(process: ProcessState, has_model: bool, recorded: ModelLoadState) -> (r: ModelLoadState)
    ensures
        process == ProcessState::Running && has_model ==> r == ModelLoadState::Loaded,
        !(process == ProcessState::Running && has_model) ==> r == recorded,
{
    if process == ProcessState::Running && has_model {
        ModelLoadState::Loaded
    } else {
        recorded
    }
}

/// Is the runtime between states: the process starting or stopping, a
/// model loading, swapping or unloading, or load progress not yet done?
pub open spec fn in_transition(process: ProcessState, load: ModelLoadState, progress_done: Option<bool>) -> bool {
    process == ProcessState::Starting || process == ProcessState::Stopping || load is Loading || load is Swapping
        || load is Unloading || progress_done == Some(false)
}

pub fn transition_active(process: ProcessState, load: &ModelLoadState, progress_done: Option<bool>) -> (b: bool)
    ensures
        b == in_transition(process, *load, progress_done),
{
    let load_moving = match load {
        ModelLoadState::Loading => true,
        ModelLoadState::Swapping => true,
        ModelLoadState::Unloading => true,
        _ => false,
    };
    process == ProcessState::Starting || process == ProcessState::Stopping || load_moving || progress_done
        == Some(false)
}

/// The public API's state as shown: running when it answers, starting
/// while the runtime changes or this application holds its port, an error
/// when it was running and no longer answers, else its recorded state.
pub open spec fn shown_api_state(reachable: bool, transition: bool, owned_by_self: bool, recorded: Seq<char>) -> Seq<char> {
    if reachable {
        "Running"@
    } else if transition || owned_by_self {
        "Starting"@
    } else if recorded == "Running"@ {
        "Error"@
    } else {
        recorded
    }
}

/// The public API's error as shown: none while it answers or is starting;
/// when it fell over, why its port is not served (the recorded error
/// first, when another process holds the port).
pub open spec fn shown_api_error(
    reachable: bool,
    transition: bool,
    port_owner: Option<Seq<char>>,
    shown_state: Seq<char>,
    recorded: Option<Seq<char>>,
    url: Seq<char>,
    port: u16,
) -> Option<Seq<char>> {
    let owned_by_self = port_owner == Some("self"@);
    if reachable || transition || owned_by_self {
        None
    } else if shown_state == "Error"@ {
        match port_owner {
            Some(_) => match recorded {
                Some(e) => Some(e),
                None => Some(
                    "The public API is not currently reachable on "@ + url
                        + ". Another process appears to be holding port "@ + decimal(port as nat) + "."@,
                ),
            },
            None => Some(
                "The public API is not currently reachable on "@ + url + ". No active listener is holding port "@
                    + decimal(port as nat) + ". Retry API to start it again."@,
            ),
        }
    } else {
        recorded
    }
}

fn same(a: &str, b: &str) -> (r: bool)
    ensures
        r == (a@ == b@),
{
    chars_equal(&chars_of(a), &chars_of(b))
}

fn cat(a: &str, b: &str) -> (r: String)
    ensures
        r@ == a@ + b@,
{
    string_of(&concat_chars(&chars_of(a), &chars_of(b)))
}

/// The public API's state and error as shown, given whether it answered,
/// whether the runtime is changing, who holds its port (the holder's
/// kind, if the port was looked up and is held), its recorded state and
/// error, its URL and its port.
pub fn api_status(
    reachable: bool,
    transition: bool,
    port_owner_kind: Option<&str>,
    recorded_state: &str,
    recorded_error: Option<String>,
    url: &str,
    port: u16,
) -> (r: (String, Option<String>))
    ensures
        ({
            let owner = match port_owner_kind {
                Some(k) => Some(k@),
                None => None,
            };
            let owned_by_self = owner == Some("self"@);
            &&& r.0@ == shown_api_state(reachable, transition, owned_by_self, recorded_state@)
            &&& opt_view(r.1) == shown_api_error(
                reachable,
                transition,
                owner,
                r.0@,
                opt_view(recorded_error),
                url@,
                port,
            )
        }),
{
    let owned_by_self = match port_owner_kind {
        Some(k) => same(k, "self"),
        None => false,
    };
    let state = if reachable {
        "Running".to_string()
    } else if transition || owned_by_self {
        "Starting".to_string()
    } else if same(recorded_state, "Running") {
        "Error".to_string()
    } else {
        recorded_state.to_string()
    };
    let error = if reachable || transition || owned_by_self {
        None
    } else if same(state.as_str(), "Error") {
        let p = string_of(&decimal_chars(port as u64));
        match port_owner_kind {
            Some(_) => match recorded_error {
                Some(e) => Some(e),
                None => {
                    let m = cat(
                        cat(cat("The public API is not currently reachable on ", url).as_str(), ". Another process appears to be holding port ").as_str(),
                        cat(p.as_str(), ".").as_str(),
                    );
                    Some(m)
                },
            },
            None => {
                let m = cat(
                    cat(cat("The public API is not currently reachable on ", url).as_str(), ". No active listener is holding port ").as_str(),
                    cat(p.as_str(), ". Retry API to start it again.").as_str(),
                );
                Some(m)
            },
        }
    } else {
        recorded_error
    };
    (state, error)
}

/// Slots shown: the last launch's, while the server runs and it has some.
pub fn slot_count(is_running: bool, preview_slots: Option<u32>) -> (r: Option<u32>)
    ensures
        r == (if is_running && (preview_slots matches Some(n) && n > 0) { preview_slots } else { None }),
{
    if is_running {
        match preview_slots {
            Some(n) => if n > 0 {
                Some(n)
            } else {
                None
            },
            None => None,
        }
    } else {
        None
    }
}

} // verus!

//! Chat-template arguments as they are handed to llama-server.
//!
//! The arguments are a JSON object given as text. They pass through
//! trimmed; only when reasoning is switched off for a Gemma 4 or Qwen 3
//! model does the object get `"enable_thinking": false`, and then only if
//! it does not already say otherwise.

use vstd::prelude::*;
use crate::chat::ModelFamily;
use crate::engine::process::{disables_thinking, reasoning_mode_disables_thinking};
use crate::text::{chars_of, string_of, trim, trim_str};

verus! {

broadcast use vstd::string::group_string_axioms;

#[verifier::external_type_specification]
#[verifier::external_body]
pub struct ExJsonValue(serde_json::Value);

#[verifier::external_type_specification]
#[verifier::external_body]
#[verifier::reject_recursive_types(K)]
#[verifier::reject_recursive_types(V)]
pub struct ExJsonMap<K, V>(serde_json::Map<K, V>);

/// What a JSON object holds: each key with the compact JSON text of its
/// value (the text `serde_json::to_string` gives for that value alone).
pub uninterp spec fn json_object_entries(m: serde_json::Map<String, serde_json::Value>) -> Map<Seq<char>, Seq<char>>;

/// What `serde_json::from_str::<Value>` makes of a text: `Err` with the
/// displayed parse error when it is not JSON, `Ok(None)` when it is JSON
/// but not an object, and `Ok(Some(..))` with the object's entries (see
/// `json_object_entries`) when it is an object.
pub uninterp spec fn json_read(raw: Seq<char>) -> Result<Option<Map<Seq<char>, Seq<char>>>, Seq<char>>;

/// The compact JSON text that `serde_json::to_string` writes for an object
/// with the given entries (its keys in the map's sorted order, each escaped
/// and followed by `:` and the value's text).
pub uninterp spec fn json_object_text_of(entries: Map<Seq<char>, Seq<char>>) -> Seq<char>;

/// `serde_json::from_str::<Value>`, with the parsed value told apart by
/// variant: the object, `None` for any other JSON value, or the displayed
/// parse error. Claimed: which of the three, and the error's text or the
/// object's entries, depend on the text alone.
#[verifier::external_body]
pub(crate) fn parse_json_object(raw: &str) -> (r: Result<Option<serde_json::Map<String, serde_json::Value>>, String>)
    ensures
        match json_read(raw@) {
            Err(msg) => r matches Err(e) && e@ == msg,
            Ok(None) => r matches Ok(None),
            Ok(Some(entries)) => r matches Ok(Some(m)) && json_object_entries(m) == entries,
        },
{
    match serde_json::from_str::<serde_json::Value>(raw) {
        Ok(serde_json::Value::Object(m)) => Ok(Some(m)),
        Ok(_) => Ok(None),
        Err(e) => Err(e.to_string()),
    }
}

/// The entries of an empty object.
pub open spec fn no_entries() -> Map<Seq<char>, Seq<char>> {
    Map::empty()
}

/// `serde_json::Map::new`: an empty object.
#[verifier::external_body]
fn empty_json_object() -> (m: serde_json::Map<String, serde_json::Value>)
    ensures
        json_object_entries(m) == no_entries(),
{
    serde_json::Map::new()
}

/// `serde_json::Map::contains_key`: whether the object has the key.
#[verifier::external_body]
fn json_object_has_key(m: &serde_json::Map<String, serde_json::Value>, key: &str) -> (b: bool)
    ensures
        b == json_object_entries(*m).dom().contains(key@),
{
    m.contains_key(key)
}

/// `serde_json::Map::insert` of a boolean: the key then holds `true` or
/// `false`, whatever it held before.
#[verifier::external_body]
fn json_object_insert_bool(m: &mut serde_json::Map<String, serde_json::Value>, key: &str, value: bool)
    ensures
        json_object_entries(*final(m)) == json_object_entries(*old(m)).insert(
            key@,
            if value {
                "true"@
            } else {
                "false"@
            },
        ),
{
    m.insert(key.to_string(), serde_json::Value::Bool(value));
}

/// `serde_json::to_string` of an object. Claimed: it succeeds (the value's
/// `Serialize` impl never fails, its keys are strings, and the output goes
/// to memory) with the text `json_object_text_of` its entries.
#[verifier::external_body]
fn json_object_text(m: serde_json::Map<String, serde_json::Value>) -> (r: Result<String, String>)
    ensures
        r is Ok,
        r matches Ok(t) ==> t@ == json_object_text_of(json_object_entries(m)),
{
    serde_json::to_string(&serde_json::Value::Object(m)).map_err(|e| e.to_string())
}

/// An object's entries with `enable_thinking` set to `false`, unless it has
/// that key already.
pub open spec fn with_thinking_off(entries: Map<Seq<char>, Seq<char>>) -> Map<Seq<char>, Seq<char>> {
    if entries.dom().contains("enable_thinking"@) {
        entries
    } else {
        entries.insert("enable_thinking"@, "false"@)
    }
}

/// Give an object `"enable_thinking": false` unless it has that key
/// already.
pub fn switch_thinking_off(object: &mut serde_json::Map<String, serde_json::Value>)
    ensures
        json_object_entries(*final(object)) == with_thinking_off(json_object_entries(*old(object))),
{
    if !json_object_has_key(object, "enable_thinking") {
        json_object_insert_bool(object, "enable_thinking", false);
    }
}

/// The arguments, as read when thinking is switched off: an object (none
/// given counts as `{}`) that gets `"enable_thinking": false` unless it has
/// that key, as compact JSON text; or why they are refused.
pub open spec fn kwargs_with_thinking_off(trimmed: Option<Seq<char>>) -> Result<Option<Seq<char>>, Seq<char>> {
    let read = match trimmed {
        Some(raw) => json_read(raw),
        None => Ok(Some(no_entries())),
    };
    match read {
        Err(m) => Err("Invalid chat_template_kwargs_json: "@ + m),
        Ok(None) => Err("chat_template_kwargs_json must be a JSON object"@),
        Ok(Some(entries)) => Ok(Some(json_object_text_of(with_thinking_off(entries)))),
    }
}

pub open spec fn kwargs_result(r: Result<Option<String>, String>) -> Result<Option<Seq<char>>, Seq<char>> {
    match r {
        Ok(o) => Ok(opt_text(o)),
        Err(e) => Err(e@),
    }
}

/// The arguments as given, trimmed, when they are not blank.
pub open spec fn trimmed_kwargs(kwargs: Option<Seq<char>>) -> Option<Seq<char>> {
    match kwargs {
        Some(k) => if trim(k).len() > 0 {
            Some(trim(k))
        } else {
            None
        },
        None => None,
    }
}

/// Whether the template's thinking switch is turned off: reasoning is off
/// for a Gemma 4 or Qwen 3 model.
pub open spec fn template_thinking_disabled(family: ModelFamily, reasoning_mode: Option<Seq<char>>) -> bool {
    (family == ModelFamily::Gemma4 || family == ModelFamily::Qwen3) && disables_thinking(reasoning_mode)
}

pub open spec fn opt_text(o: Option<String>) -> Option<Seq<char>> {
    match o {
        Some(s) => Some(s@),
        None => None,
    }
}

/// The chat-template arguments handed to llama-server for a model of the
/// given family. Unless thinking is switched off for the family they are
/// the given arguments, trimmed, or none when blank. When it is, the
/// arguments must be a JSON object (none given counts as `{}`), which gets
/// `"enable_thinking": false` unless it has that key already.
pub fn normalize_chat_template_kwargs_for_profile(
    kwargs_json: Option<String>,
    reasoning_mode: Option<String>,
    family: ModelFamily,
) -> (r: Result<Option<String>, String>)
    ensures
        !template_thinking_disabled(family, opt_text(reasoning_mode)) ==> (r matches Ok(o) && opt_text(o)
            == trimmed_kwargs(opt_text(kwargs_json))),
        template_thinking_disabled(family, opt_text(reasoning_mode)) ==> kwargs_result(r)
            == kwargs_with_thinking_off(trimmed_kwargs(opt_text(kwargs_json))),
{
    let trimmed: Option<String> = match &kwargs_json {
        Some(k) => {
            let t = trim_str(k.as_str());
            if t.len() > 0 {
                Some(string_of(&t))
            } else {
                None
            }
        },
        None => None,
    };
    let mode = match &reasoning_mode {
        Some(m) => Some(m.as_str()),
        None => None,
    };
    let off = reasoning_mode_disables_thinking(mode);
    let family_switch = match family {
        ModelFamily::Gemma4 => true,
        ModelFamily::Qwen3 => true,
        _ => false,
    };
    if !(family_switch && off) {
        return Ok(trimmed);
    }
    let mut object = match trimmed {
        Some(raw) => {
            match parse_json_object(raw.as_str()) {
                Err(e) => {
                    let mut msg = chars_of("Invalid chat_template_kwargs_json: ");
                    let ghost head = msg@;
                    let tail = chars_of(e.as_str());
                    let mut i: usize = 0;
                    while i < tail.len()
                        invariant
                            i <= tail.len(),
                            msg@ == head + tail@.take(i as int),
                        decreases tail.len() - i,
                    {
                        msg.push(tail[i]);
                        i += 1;
                        assert(msg@ =~= head + tail@.take(i as int));
                    }
                    assert(tail@.take(i as int) =~= tail@);
                    return Err(string_of(&msg));
                },
                Ok(None) => {
                    return Err("chat_template_kwargs_json must be a JSON object".to_string());
                },
                Ok(Some(m)) => m,
            }
        },
        None => empty_json_object(),
    };
    switch_thinking_off(&mut object);
    match json_object_text(object) {
        Ok(text) => Ok(Some(text)),
        Err(e) => Err(e),
    }
}

} // verus!

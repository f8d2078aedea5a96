//! Preparing a chat turn for the model: history cleanup, thinking
//! preferences, and matching the running model to the requested one.

use vstd::prelude::*;
use crate::runtime::{lines_exec, text_lines};
use crate::text::{
    ascii_lower, ascii_lower_chars, chars_equal, chars_of, contains_chars, contains_seq, ends_with,
    ends_with_chars, join_chars, join_with, path_file_name, starts_with, starts_with_chars,
    concat_chars, string_of, trim, trim_chars, trim_end_seq, trim_end_seq_chars, trim_start, trim_str,
    plain_name_of, verbatim_prefixed,
};

verus! {

broadcast use vstd::string::group_string_axioms;

/// A placeholder line standing for an attached image, such as `[img-1]`.
pub open spec fn image_marker_line(line: Seq<char>) -> bool {
    starts_with(trim(line), "[img-"@) && ends_with(trim(line), "]"@)
}

/// The lines of `lines` that are not image placeholders, in order.
pub open spec fn non_marker_lines(lines: Seq<Seq<char>>) -> Seq<Seq<char>>
    decreases lines.len(),
{
    if lines.len() == 0 {
        lines
    } else {
        let prev = non_marker_lines(lines.drop_last());
        if image_marker_line(lines.last()) {
            prev
        } else {
            prev.push(lines.last())
        }
    }
}

/// `text` without its image placeholder lines, trimmed.
pub open spec fn without_image_markers(text: Seq<char>) -> Seq<char> {
    trim(join_with(non_marker_lines(text_lines(text)), "\n"@))
}

/// Remove the `[img-N]` placeholder lines that older versions stored in the
/// message text; images are sent as separate content parts.
pub fn strip_legacy_image_markers(text: &str) -> (r: String)
    ensures
        r@ == without_image_markers(text@),
{
    let lines = lines_exec(&chars_of(text));
    let ghost lv = lines@.map_values(|p: Vec<char>| p@);
    let open_marker = chars_of("[img-");
    let close_marker = chars_of("]");
    let mut kept: Vec<Vec<char>> = Vec::new();
    let mut i: usize = 0;
    assert(lv.take(0) =~= Seq::<Seq<char>>::empty());
    assert(kept@.map_values(|p: Vec<char>| p@) =~= Seq::<Seq<char>>::empty());
    while i < lines.len()
        invariant
            i <= lines.len(),
            lv == lines@.map_values(|p: Vec<char>| p@),
            open_marker@ == "[img-"@,
            close_marker@ == "]"@,
            kept@.map_values(|p: Vec<char>| p@) == non_marker_lines(lv.take(i as int)),
        decreases lines.len() - i,
    {
        assert(lv.take(i + 1).drop_last() =~= lv.take(i as int));
        assert(lv.take(i + 1).last() == lines@[i as int]@);
        let t = trim_chars(&lines[i]);
        let marker = starts_with_chars(&t, &open_marker) && ends_with_chars(&t, &close_marker);
        if !marker {
            let ghost before = kept@.map_values(|p: Vec<char>| p@);
            let copy = crate::text::slice_chars(&lines[i], 0, lines[i].len());
            assert(copy@ =~= lines@[i as int]@);
            kept.push(copy);
            assert(kept@.map_values(|p: Vec<char>| p@) =~= before.push(lines@[i as int]@));
        }
        i += 1;
    }
    assert(lv.take(i as int) =~= lv);
    let joined = join_chars(kept.as_slice(), &chars_of("\n"));
    string_of(&trim_chars(&joined))
}

/// The model families whose prompts get thinking switches.
#[derive(Clone, Copy, Debug, PartialEq, Eq, Structural)]
pub enum ModelFamily {
    Gemma4,
    Qwen3,
    Qwen3_5,
    Other,
}

/// A message prepared for the model.
#[derive(Clone, Debug)]
pub struct PreparedMessage {
    pub role: String,
    pub content: String,
    pub image_base64: Option<String>,
}

pub ghost struct MessageModel {
    pub role: Seq<char>,
    pub content: Seq<char>,
    pub image: Option<Seq<char>>,
}

impl View for PreparedMessage {
    type V = MessageModel;

    open spec fn view(&self) -> MessageModel {
        MessageModel {
            role: self.role@,
            content: self.content@,
            image: match self.image_base64 {
                Some(s) => Some(s@),
                None => None,
            },
        }
    }
}

pub open spec fn messages_view(v: Seq<PreparedMessage>) -> Seq<MessageModel> {
    v.map_values(|m: PreparedMessage| m@)
}

pub open spec fn gemma_think_prompt() -> Seq<char> {
    "<|think|>\nYou may use internal reasoning before the final answer."@
}

pub open spec fn gemma_direct_prompt() -> Seq<char> {
    "Respond directly. Do not emit hidden reasoning or thought-channel content."@
}

pub open spec fn qwen3_direct_prefix() -> Seq<char> {
    "Respond directly without emitting <think> blocks. Return only the final answer.\n\n"@
}

pub open spec fn system_message(content: Seq<char>) -> MessageModel {
    MessageModel { role: "system"@, content, image: None }
}

/// Index of the first system message.
pub open spec fn first_system(ms: Seq<MessageModel>) -> Option<int> {
    if exists|i: int| 0 <= i < ms.len() && ms[i].role == "system"@ {
        Some(choose|i: int|
            0 <= i < ms.len() && ms[i].role == "system"@ && forall|j: int|
                0 <= j < i ==> ms[j].role != "system"@)
    } else {
        None
    }
}

/// The messages with the user's thinking preference applied.
///
/// Gemma 4: showing thinking puts `<|think|>` at the start of the first
/// system message (or adds a system message that allows reasoning); hiding
/// it adds a leading system message asking for a direct answer. Other
/// families change only a last user message: Qwen 3 gets a direct-answer
/// instruction when thinking is hidden; families with think tags get
/// `/think` or `/no_think`; Qwen 3.5 is left as it is (its reasoning is
/// chosen when the server starts).
pub open spec fn with_thinking_preference(ms: Seq<MessageModel>, family: ModelFamily, has_think_tags: bool, show: Option<bool>) -> Seq<MessageModel> {
    if family == ModelFamily::Gemma4 {
        match show {
            Some(true) => match first_system(ms) {
                Some(i) => if starts_with(trim_start(ms[i].content), "<|think|>"@) {
                    ms
                } else {
                    ms.update(i, MessageModel { content: "<|think|>\n"@ + ms[i].content, ..ms[i] })
                },
                None => seq![system_message(gemma_think_prompt())] + ms,
            },
            Some(false) => seq![system_message(gemma_direct_prompt())] + ms,
            None => ms,
        }
    } else if ms.len() == 0 || ms.last().role != "user"@ {
        ms
    } else {
        let last = ms.last();
        let prefix = if family == ModelFamily::Qwen3_5 {
            None
        } else if family == ModelFamily::Qwen3 {
            match show {
                Some(false) => Some(qwen3_direct_prefix()),
                _ => None,
            }
        } else if has_think_tags {
            match show {
                Some(true) => Some("/think\n"@),
                Some(false) => Some("/no_think\n"@),
                None => None,
            }
        } else {
            None
        };
        match prefix {
            Some(p) => ms.update(ms.len() - 1, MessageModel { content: p + last.content, ..last }),
            None => ms,
        }
    }
}

fn prefixed(prefix: &str, text: &str) -> (r: String)
    ensures
        r@ == prefix@ + text@,
{
    let mut v = chars_of(prefix);
    let w = chars_of(text);
    let ghost v0 = v@;
    let mut i: usize = 0;
    while i < w.len()
        invariant
            i <= w.len(),
            v@ == v0 + w@.take(i as int),
        decreases w.len() - i,
    {
        v.push(w[i]);
        i += 1;
        assert(v@ =~= v0 + w@.take(i as int));
    }
    assert(w@.take(i as int) =~= w@);
    string_of(&v)
}

fn set_content(msgs: &mut Vec<PreparedMessage>, i: usize, content: String)
    requires
        i < old(msgs)@.len(),
    ensures
        messages_view(final(msgs)@) == messages_view(old(msgs)@).update(
            i as int,
            MessageModel { content: content@, ..old(msgs)@[i as int]@ },
        ),
{
    let old_m = &msgs[i];
    let m = PreparedMessage {
        role: old_m.role.clone(),
        content,
        image_base64: match &old_m.image_base64 {
            Some(s) => Some(s.clone()),
            None => None,
        },
    };
    let ghost before = messages_view(msgs@);
    msgs.set(i, m);
    assert(messages_view(msgs@) =~= before.update(i as int, MessageModel { content: content@, ..before[i as int] }));
}

/// Apply the user's thinking preference to the prepared messages.
pub fn apply_thinking_preference(messages: Vec<PreparedMessage>, family: ModelFamily, has_think_tags: bool, show_thinking: Option<bool>) -> (r: Vec<PreparedMessage>)
    ensures
        messages_view(r@) == with_thinking_preference(messages_view(messages@), family, has_think_tags, show_thinking),
{
    let ghost ms = messages_view(messages@);
    let mut msgs = messages;
    if family == ModelFamily::Gemma4 {
        match show_thinking {
            Some(true) => {
                let mut i: usize = 0;
                while i < msgs.len()
                    invariant
                        i <= msgs.len(),
                        ms == messages_view(msgs@),
                        ms == messages_view(messages@),
                        family == ModelFamily::Gemma4,
                        show_thinking == Some(true),
                        forall|j: int| 0 <= j < i ==> ms[j].role != "system"@,
                    decreases msgs.len() - i,
                {
                    if chars_equal(&chars_of(msgs[i].role.as_str()), &chars_of("system")) {
                        let ghost w = i as int;
                        let ghost c = choose|c: int|
                            0 <= c < ms.len() && ms[c].role == "system"@ && forall|j: int|
                                0 <= j < c ==> ms[j].role != "system"@;
                        assert(c == w) by {
                            if c < w {
                            } else if c > w {
                                assert(ms[w].role != "system"@);
                            }
                        }
                        let content = crate::text::chars_of(msgs[i].content.as_str());
                        let rest = skip_leading_ws(&content);
                        if starts_with_chars(&rest, &chars_of("<|think|>")) {
                            return msgs;
                        }
                        let new_content = prefixed("<|think|>\n", msgs[i].content.as_str());
                        set_content(&mut msgs, i, new_content);
                        return msgs;
                    }
                    i += 1;
                }
                let sys = PreparedMessage {
                    role: "system".to_string(),
                    content: "<|think|>\nYou may use internal reasoning before the final answer.".to_string(),
                    image_base64: None,
                };
                msgs.insert(0, sys);
                assert(messages_view(msgs@) =~= seq![system_message(gemma_think_prompt())] + ms);
                msgs
            },
            Some(false) => {
                let sys = PreparedMessage {
                    role: "system".to_string(),
                    content: "Respond directly. Do not emit hidden reasoning or thought-channel content.".to_string(),
                    image_base64: None,
                };
                msgs.insert(0, sys);
                assert(messages_view(msgs@) =~= seq![system_message(gemma_direct_prompt())] + ms);
                msgs
            },
            None => msgs,
        }
    } else {
        let n = msgs.len();
        if n == 0 || !chars_equal(&chars_of(msgs[n - 1].role.as_str()), &chars_of("user")) {
            return msgs;
        }
        let prefix: Option<&str> = if family == ModelFamily::Qwen3_5 {
            None
        } else if family == ModelFamily::Qwen3 {
            match show_thinking {
                Some(false) => Some(
                    "Respond directly without emitting <think> blocks. Return only the final answer.\n\n",
                ),
                _ => None,
            }
        } else if has_think_tags {
            match show_thinking {
                Some(true) => Some("/think\n"),
                Some(false) => Some("/no_think\n"),
                None => None,
            }
        } else {
            None
        };
        match prefix {
            Some(p) => {
                let new_content = prefixed(p, msgs[n - 1].content.as_str());
                set_content(&mut msgs, n - 1, new_content);
                msgs
            },
            None => msgs,
        }
    }
}

fn skip_leading_ws(v: &[char]) -> (r: Vec<char>)
    ensures
        r@ == trim_start(v@),
{
    skip_ws_prefix(v)
}

fn skip_ws_prefix(v: &[char]) -> (r: Vec<char>)
    ensures
        r@ == trim_start(v@),
{
    let i = crate::text::skip_ws_forward(v, 0);
    assert(v@.skip(0) =~= v@);
    let r = crate::text::slice_chars(v, i, v.len());
    assert(r@ =~= v@.skip(i as int));
    r
}

/// A requested model name and the launched file name agree: equal (ASCII
/// case and surrounding white space ignored), equal up to `.gguf`, or the
/// request found inside the file name.
pub open spec fn preview_matches(requested: Seq<char>, preview_name: Seq<char>) -> bool {
    let r = ascii_lower(trim(requested));
    let p = ascii_lower(trim(preview_name));
    p == r || trim_end_seq(p, ".gguf"@) == r || p == trim_end_seq(r, ".gguf"@) || (r.len() > 0
        && contains_seq(p, r))
}

/// What a path is reduced to when its file name is wanted: the file name,
/// a non-empty piece of the path (without `/` unless the path has a
/// verbatim prefix), or the whole path when it has none.
pub open spec fn name_piece(path: Seq<char>, n: Seq<char>) -> bool {
    n == path || (n.len() > 0 && contains_seq(path, n) && (!verbatim_prefixed(path) ==> !n.contains('/')))
}

/// Was the running server launched for `model_name`? The launched path is
/// reduced to its file name first; a plainly written path (see
/// `plain_file_name`) to its final component.
pub fn launch_preview_matches_model(model_name: &str, preview_model_path: &str) -> (b: bool)
    ensures
        exists|n: Seq<char>| name_piece(preview_model_path@, n) && b == #[trigger] preview_matches(model_name@, n),
        plain_name_of(preview_model_path@) matches Some(n) ==> b == preview_matches(model_name@, n),
{
    let name = match path_file_name(preview_model_path) {
        Some(n) => n,
        None => preview_model_path.to_string(),
    };
    assert(name_piece(preview_model_path@, name@));
    let b = preview_name_matches(model_name, name.as_str());
    assert(b == preview_matches(model_name@, name@));
    b
}

/// Does a launched file name match the requested model name?
pub fn preview_name_matches(model_name: &str, preview_name: &str) -> (b: bool)
    ensures
        b == preview_matches(model_name@, preview_name@),
{
    let r = ascii_lower_chars(&crate::text::trim_str(model_name));
    let p = ascii_lower_chars(&crate::text::trim_str(preview_name));
    proof {
        reveal_strlit(".gguf");
    }
    let ext = chars_of(".gguf");
    chars_equal(&p, &r) || chars_equal(&trim_end_seq_chars(&p, &ext), &r) || chars_equal(
        &p,
        &trim_end_seq_chars(&r, &ext),
    ) || (r.len() > 0 && contains_chars(&p, &r))
}

/// Benchmark model names agree: file names without `.gguf`, in ASCII
/// lowercase.
pub open spec fn bench_key(name: Seq<char>) -> Seq<char> {
    ascii_lower(trim_end_seq(name, ".gguf"@))
}

/// Compare two already reduced benchmark model names.
pub fn benchmark_names_agree(loaded_file: &str, requested_file: &str) -> (b: bool)
    ensures
        b == (bench_key(loaded_file@) == bench_key(requested_file@)),
{
    proof {
        reveal_strlit(".gguf");
    }
    let ext = chars_of(".gguf");
    let a = ascii_lower_chars(&trim_end_seq_chars(&chars_of(loaded_file), &ext));
    let b = ascii_lower_chars(&trim_end_seq_chars(&chars_of(requested_file), &ext));
    chars_equal(&a, &b)
}

/// Is the loaded benchmark model the requested one? Each name is reduced to
/// its file name first; a plainly written path (see `plain_file_name`) to
/// its final component.
pub fn benchmark_model_names_match(loaded: &str, requested: &str) -> (b: bool)
    ensures
        exists|x: Seq<char>, y: Seq<char>|
            name_piece(loaded@, x) && name_piece(requested@, y) && b == (bench_key(x) == bench_key(y)),
        plain_name_of(loaded@) matches Some(x) ==> (plain_name_of(requested@) matches Some(y) ==> b == (
        bench_key(x) == bench_key(y))),
{
    let a = match path_file_name(loaded) {
        Some(n) => n,
        None => loaded.to_string(),
    };
    let b = match path_file_name(requested) {
        Some(n) => n,
        None => requested.to_string(),
    };
    assert(name_piece(loaded@, a@));
    assert(name_piece(requested@, b@));
    let r = benchmark_names_agree(a.as_str(), b.as_str());
    assert(r == (bench_key(a@) == bench_key(b@)));
    r
}

/// Index of the last non-blank line among `lines[..i]`.
pub open spec fn last_nonblank(lines: Seq<Seq<char>>, i: int) -> Option<int>
    decreases i,
{
    if i <= 0 || i > lines.len() {
        None
    } else if trim(lines[i - 1]).len() > 0 {
        Some(i - 1)
    } else {
        last_nonblank(lines, i - 1)
    }
}

/// The most recent non-blank line of the runner's error output (or of its
/// standard output when the error output is blank), trimmed, at most 1000
/// characters.
pub open spec fn last_useful_line(stderr: Seq<char>, stdout: Seq<char>) -> Seq<char> {
    let source = if trim(stderr).len() == 0 { stdout } else { stderr };
    let lines = text_lines(source);
    let line = match last_nonblank(lines, lines.len() as int) {
        Some(i) => trim(lines[i]),
        None => Seq::<char>::empty(),
    };
    if line.len() > 1000 {
        line.take(1000)
    } else {
        line
    }
}

/// The line worth showing when the image runner fails.
pub fn useful_error_log(stderr: &str, stdout: &str) -> (r: String)
    ensures
        r@ == last_useful_line(stderr@, stdout@),
{
    let source = if crate::text::trim_str(stderr).len() == 0 { stdout } else { stderr };
    let lines = lines_exec(&chars_of(source));
    let ghost lv = lines@.map_values(|p: Vec<char>| p@);
    let mut i: usize = lines.len();
    while i > 0
        invariant
            i <= lines.len(),
            lv == lines@.map_values(|p: Vec<char>| p@),
            lv == text_lines(if trim(stderr@).len() == 0 { stdout@ } else { stderr@ }),
            last_nonblank(lv, lv.len() as int) == last_nonblank(lv, i as int),
        decreases i,
    {
        assert(lv[i - 1] == lines@[i - 1]@);
        let t = trim_chars(&lines[i - 1]);
        if t.len() > 0 {
            let n = if t.len() > 1000 { 1000 } else { t.len() };
            let out = crate::text::slice_chars(&t, 0, n);
            assert(t@.len() > 1000 ==> out@ =~= t@.take(1000));
            assert(t@.len() <= 1000 ==> out@ =~= t@);
            return string_of(&out);
        }
        i -= 1;
    }
    String::new()
}

// ---------------------------------------------------------------------------
// Messages in the OpenAI shape
// ---------------------------------------------------------------------------

/// One part of a multimodal message.
#[derive(Clone, Debug, PartialEq, Eq)]
pub enum ApiContentPart {
    Text { text: String },
    ImageUrl { url: String },
}

/// A message's content: plain text, or parts.
#[derive(Clone, Debug, PartialEq, Eq)]
pub enum ApiMessageContent {
    Text(String),
    Parts(Vec<ApiContentPart>),
}

/// A chat message as OpenAI-style endpoints take it.
#[derive(Clone, Debug, PartialEq, Eq)]
pub struct ApiMessage {
    pub role: String,
    pub content: ApiMessageContent,
}

pub ghost enum PartModel {
    Text(Seq<char>),
    ImageUrl(Seq<char>),
}

pub open spec fn part_view(p: ApiContentPart) -> PartModel {
    match p {
        ApiContentPart::Text { text } => PartModel::Text(text@),
        ApiContentPart::ImageUrl { url } => PartModel::ImageUrl(url@),
    }
}

pub open spec fn parts_view(v: Seq<ApiContentPart>) -> Seq<PartModel> {
    v.map_values(|p: ApiContentPart| part_view(p))
}

/// The parts for a text and an optional PNG image (base64): the text when
/// it is not blank, then the image as a data URL.
pub open spec fn content_parts(text: Seq<char>, image: Option<Seq<char>>) -> Seq<PartModel> {
    (if trim(text).len() > 0 { seq![PartModel::Text(text)] } else { Seq::empty() })
        + match image {
        Some(b) => seq![PartModel::ImageUrl("data:image/png;base64,"@ + b)],
        None => Seq::empty(),
    }
}

/// Build the content parts for a text and an optional base64 PNG.
pub fn build_openai_content_parts(text: &str, image_base64: Option<&str>) -> (r: Vec<ApiContentPart>)
    ensures
        parts_view(r@) == content_parts(
            text@,
            match image_base64 { Some(b) => Some(b@), None => None },
        ),
{
    let mut parts: Vec<ApiContentPart> = Vec::new();
    if trim_str(text).len() > 0 {
        parts.push(ApiContentPart::Text { text: text.to_string() });
    }
    let ghost after_text = parts_view(parts@);
    if let Some(b) = image_base64 {
        let url = string_of(&concat_chars(&chars_of("data:image/png;base64,"), &chars_of(b)));
        parts.push(ApiContentPart::ImageUrl { url });
        assert(parts_view(parts@) =~= after_text.push(PartModel::ImageUrl("data:image/png;base64,"@ + b@)));
    }
    assert(parts_view(parts@) =~= content_parts(
        text@,
        match image_base64 { Some(b) => Some(b@), None => None },
    ));
    parts
}

pub ghost enum ContentModel {
    Text(Seq<char>),
    Parts(Seq<PartModel>),
}

pub open spec fn api_message_view(m: ApiMessage) -> (Seq<char>, ContentModel) {
    (
        m.role@,
        match m.content {
            ApiMessageContent::Text(t) => ContentModel::Text(t@),
            ApiMessageContent::Parts(ps) => ContentModel::Parts(parts_view(ps@)),
        },
    )
}

/// A prepared message in the OpenAI shape: with an image, the text without
/// its legacy `[img-N]` lines and the image as parts; else the text as is.
pub open spec fn api_message_for(m: MessageModel) -> (Seq<char>, ContentModel) {
    (
        m.role,
        match m.image {
            Some(b) => ContentModel::Parts(content_parts(without_image_markers(m.content), Some(b))),
            None => ContentModel::Text(m.content),
        },
    )
}

/// The prepared messages in the OpenAI shape, one for one and in order.
pub fn build_openai_messages(messages: &Vec<PreparedMessage>) -> (r: Vec<ApiMessage>)
    ensures
        r.len() == messages.len(),
        forall|i: int| 0 <= i < messages.len() ==> api_message_view(#[trigger] r@[i])
            == api_message_for(messages@[i]@),
{
    let mut out: Vec<ApiMessage> = Vec::new();
    let mut i: usize = 0;
    while i < messages.len()
        invariant
            i <= messages.len(),
            out.len() == i,
            forall|k: int| 0 <= k < i ==> api_message_view(#[trigger] out@[k]) == api_message_for(messages@[k]@),
        decreases messages.len() - i,
    {
        let m = &messages[i];
        let content = match &m.image_base64 {
            Some(b) => {
                let text = strip_legacy_image_markers(m.content.as_str());
                ApiMessageContent::Parts(build_openai_content_parts(text.as_str(), Some(b.as_str())))
            },
            None => ApiMessageContent::Text(m.content.clone()),
        };
        out.push(ApiMessage { role: m.role.clone(), content });
        i += 1;
    }
    out
}

/// On a model with think tags (not Gemma 4 and not a Qwen model), the
/// thinking switch only touches a last user message: hiding thinking puts
/// `/no_think` on a line before its text, showing it puts `/think` there,
/// and no choice leaves it alone; every other message, and that message's
/// role and image, stay as they were.
pub proof fn lemma_think_tag_switch(ms: Seq<MessageModel>, show: Option<bool>)
    requires
        ms.len() > 0,
        ms.last().role == "user"@,
    ensures
        ({
            let r = with_thinking_preference(ms, ModelFamily::Other, true, show);
            &&& r.len() == ms.len()
            &&& forall|i: int| 0 <= i < ms.len() - 1 ==> #[trigger] r[i] == ms[i]
            &&& r.last().role == ms.last().role
            &&& r.last().image == ms.last().image
            &&& show == Some(false) ==> r.last().content == "/no_think\n"@ + ms.last().content
            &&& show == Some(true) ==> r.last().content == "/think\n"@ + ms.last().content
            &&& show is None ==> r == ms
        }),
{
}

/// Outside Gemma 4 the thinking switch changes nothing when the last
/// message is not the user's (or there is none), nothing on a model without
/// think tags other than Qwen 3, and nothing when no choice was made; on
/// Qwen 3 showing thinking changes nothing either.
pub proof fn lemma_thinking_leaves_alone(ms: Seq<MessageModel>, family: ModelFamily, has_think_tags: bool, show: Option<bool>)
    ensures
        family != ModelFamily::Gemma4 && (ms.len() == 0 || ms.last().role != "user"@) ==> with_thinking_preference(
            ms,
            family,
            has_think_tags,
            show,
        ) == ms,
        family == ModelFamily::Other && !has_think_tags ==> with_thinking_preference(ms, family, has_think_tags, show)
            == ms,
        show is None ==> with_thinking_preference(ms, family, has_think_tags, show) == ms,
        with_thinking_preference(ms, ModelFamily::Qwen3, has_think_tags, Some(true)) == ms,
{
}

/// Hiding thinking on Qwen 3 asks, before the text of a last user message,
/// for a direct answer without `<think>` blocks; the other messages stay.
pub proof fn lemma_qwen3_hidden_thinking(ms: Seq<MessageModel>, has_think_tags: bool)
    requires
        ms.len() > 0,
        ms.last().role == "user"@,
    ensures
        ({
            let r = with_thinking_preference(ms, ModelFamily::Qwen3, has_think_tags, Some(false));
            &&& r.len() == ms.len()
            &&& forall|i: int| 0 <= i < ms.len() - 1 ==> #[trigger] r[i] == ms[i]
            &&& r.last().role == ms.last().role
            &&& r.last().image == ms.last().image
            &&& r.last().content
                == "Respond directly without emitting <think> blocks. Return only the final answer.\n\n"@
                + ms.last().content
        }),
{
}

/// Showing thinking on Gemma 4 turns reasoning on in the first system
/// message: a `<|think|>` line goes before its text unless it already
/// starts with one, and the other messages stay; with no system message, a
/// system message allowing reasoning goes in front.
pub proof fn lemma_gemma_shown_thinking(ms: Seq<MessageModel>, has_think_tags: bool, i: int)
    ensures
        (forall|j: int| 0 <= j < ms.len() ==> (#[trigger] ms[j]).role != "system"@) ==> with_thinking_preference(
            ms,
            ModelFamily::Gemma4,
            has_think_tags,
            Some(true),
        ) == seq![MessageModel {
            role: "system"@,
            content: "<|think|>\nYou may use internal reasoning before the final answer."@,
            image: None,
        }] + ms,
        0 <= i < ms.len() && ms[i].role == "system"@ && (forall|j: int| 0 <= j < i ==> (#[trigger] ms[j]).role
            != "system"@) ==> with_thinking_preference(ms, ModelFamily::Gemma4, has_think_tags, Some(true)) == (
        if starts_with(trim_start(ms[i].content), "<|think|>"@) {
            ms
        } else {
            ms.update(i, MessageModel { content: "<|think|>\n"@ + ms[i].content, ..ms[i] })
        }),
{
    if 0 <= i < ms.len() && ms[i].role == "system"@ && (forall|j: int| 0 <= j < i ==> (#[trigger] ms[j]).role
        != "system"@) {
        let c = choose|c: int|
            0 <= c < ms.len() && ms[c].role == "system"@ && forall|j: int| 0 <= j < c ==> ms[j].role != "system"@;
        assert(0 <= c < ms.len() && ms[c].role == "system"@ && forall|j: int| 0 <= j < c ==> ms[j].role != "system"@);
        if c < i {
            assert(ms[c].role != "system"@);
        } else if c > i {
            assert(ms[i].role != "system"@);
        }
        assert(first_system(ms) == Some(i));
    }
}

/// Hiding thinking on Gemma 4 puts one system message asking for a direct
/// answer in front of the conversation, which is otherwise unchanged.
pub proof fn lemma_gemma_hidden_thinking(ms: Seq<MessageModel>, has_think_tags: bool)
    ensures
        ({
            let r = with_thinking_preference(ms, ModelFamily::Gemma4, has_think_tags, Some(false));
            &&& r.len() == ms.len() + 1
            &&& r[0].role == "system"@
            &&& r[0].content == "Respond directly. Do not emit hidden reasoning or thought-channel content."@
            &&& r[0].image is None
            &&& forall|i: int| 0 <= i < ms.len() ==> #[trigger] r[i + 1] == ms[i]
        }),
{
}

/// For Qwen 3.5 models the thinking switch is display-only: whatever it
/// says, the prepared messages go to the model unchanged.
pub proof fn lemma_qwen35_thinking_is_display_only(ms: Seq<MessageModel>, has_think_tags: bool, show: Option<bool>)
    ensures
        with_thinking_preference(ms, ModelFamily::Qwen3_5, has_think_tags, show) == ms,
{
}

} // verus!

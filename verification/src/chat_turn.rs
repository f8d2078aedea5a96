//! The decisions of one chat turn: what the live view shows as input,
//! whether images may be sent to the loaded model, which route the request
//! takes, and how attached images are numbered in the prompt.

use vstd::prelude::*;
use crate::chat::{launch_preview_matches_model, preview_matches, name_piece, messages_view, MessageModel, ModelFamily, PreparedMessage};
use crate::text::{chars_of, contains_seq, decimal, decimal_chars, plain_name_of, string_of, trim, trim_str};

verus! {

broadcast use vstd::string::group_string_axioms;

fn concat_text(a: &[char], b: &[char]) -> (r: Vec<char>)
    ensures
        r@ == a@ + b@,
{
    let mut r: Vec<char> = Vec::new();
    let mut i: usize = 0;
    while i < a.len()
        invariant
            i <= a.len(),
            r@ == a@.take(i as int),
        decreases a.len() - i,
    {
        r.push(a[i]);
        i += 1;
        assert(r@ =~= a@.take(i as int));
    }
    let mut j: usize = 0;
    assert(a@.take(i as int) =~= a@);
    while j < b.len()
        invariant
            j <= b.len(),
            r@ == a@ + b@.take(j as int),
        decreases b.len() - j,
    {
        r.push(b[j]);
        j += 1;
        assert(r@ =~= a@ + b@.take(j as int));
    }
    assert(b@.take(j as int) =~= b@);
    r
}

/// The input as the live view shows it: an attached image is noted on a
/// line of its own, or alone when there is no text.
pub open spec fn live_input_text(content: Seq<char>, has_image: bool) -> Seq<char> {
    if has_image {
        if trim(content).len() == 0 {
            "[image attached]"@
        } else {
            content + "\n[image attached]"@
        }
    } else {
        content
    }
}

/// The input as the live view shows it.
pub fn live_input(content: &str, has_image: bool) -> (r: String)
    ensures
        r@ == live_input_text(content@, has_image),
{
    if has_image {
        if trim_str(content).len() == 0 {
            "[image attached]".to_string()
        } else {
            string_of(&concat_text(&chars_of(content), &chars_of("\n[image attached]")))
        }
    } else {
        content.to_string()
    }
}

/// Can the running server see images for `model_name`? Only when the last
/// launch was for this model (see `launch_preview_matches_model`) and
/// attached a projector.
pub fn vision_runtime_ready(model_name: &str, preview_model_path: Option<&str>, preview_has_mmproj: bool) -> (b: bool)
    ensures
        preview_model_path is None || !preview_has_mmproj ==> !b,
        preview_model_path matches Some(p) ==> (preview_has_mmproj ==> exists|n: Seq<char>|
            name_piece(p@, n) && b == #[trigger] preview_matches(model_name@, n)),
        preview_model_path matches Some(p) ==> (preview_has_mmproj ==> (plain_name_of(p@) matches Some(n)
            ==> b == preview_matches(model_name@, n))),
{
    match preview_model_path {
        Some(path) => preview_has_mmproj && launch_preview_matches_model(model_name, path),
        None => false,
    }
}

/// Why a pasted image is refused: the model does not do vision, or was
/// started without its projector.
pub open spec fn inline_image_problem(model: Seq<char>, supports_vision: bool, runtime_ready: bool) -> Option<Seq<char>> {
    if !supports_vision {
        Some(
            "The loaded model `"@ + model
                + "` does not advertise vision support. Load a Vision-capable model first."@,
        )
    } else if !runtime_ready {
        Some(
            "The loaded model `"@ + model
                + "` was started without a matching mmproj sidecar, so pasted images will not be seen correctly. Reload a vision-ready model first."@,
        )
    } else {
        None
    }
}

/// Why a conversation holding images is refused.
pub open spec fn history_image_problem(model: Seq<char>, supports_vision: bool, runtime_ready: bool) -> Option<Seq<char>> {
    if !supports_vision {
        Some(
            "The loaded model `"@ + model
                + "` does not advertise vision support, but this conversation contains image input."@,
        )
    } else if !runtime_ready {
        Some(
            "This conversation contains image input, but `"@ + model
                + "` was started without a matching mmproj sidecar. Reload a vision-ready model before continuing."@,
        )
    } else {
        None
    }
}

fn three(a: &str, b: &str, c: &str) -> (r: String)
    ensures
        r@ == a@ + b@ + c@,
{
    string_of(&concat_text(&concat_text(&chars_of(a), &chars_of(b)), &chars_of(c)))
}

/// Check a pasted image against the loaded model.
pub fn check_inline_image(model_name: &str, supports_vision: bool, runtime_ready: bool) -> (r: Result<(), String>)
    ensures
        match inline_image_problem(model_name@, supports_vision, runtime_ready) {
            Some(m) => r matches Err(e) && e@ == m,
            None => r is Ok,
        },
{
    if !supports_vision {
        return Err(three(
            "The loaded model `",
            model_name,
            "` does not advertise vision support. Load a Vision-capable model first.",
        ));
    }
    if !runtime_ready {
        return Err(three(
            "The loaded model `",
            model_name,
            "` was started without a matching mmproj sidecar, so pasted images will not be seen correctly. Reload a vision-ready model first.",
        ));
    }
    Ok(())
}

/// Does any prepared message carry an image?
pub open spec fn any_image(ms: Seq<MessageModel>) -> bool {
    exists|i: int| 0 <= i < ms.len() && (#[trigger] ms[i]).image is Some
}

/// Check a conversation holding images (if it holds any) against the
/// loaded model.
pub fn check_history_images(model_name: &str, messages: &Vec<PreparedMessage>, supports_vision: bool, runtime_ready: bool) -> (r: Result<(), String>)
    ensures
        any_image(messages_view(messages@)) ==> match history_image_problem(model_name@, supports_vision, runtime_ready) {
            Some(m) => r matches Err(e) && e@ == m,
            None => r is Ok,
        },
        !any_image(messages_view(messages@)) ==> r is Ok,
{
    let ghost ms = messages_view(messages@);
    let mut found = false;
    let mut i: usize = 0;
    while i < messages.len()
        invariant
            i <= messages.len(),
            ms == messages_view(messages@),
            found == exists|k: int| 0 <= k < i && (#[trigger] ms[k]).image is Some,
        decreases messages.len() - i,
    {
        if messages[i].image_base64.is_some() {
            found = true;
            assert(ms[i as int].image is Some);
        }
        i += 1;
    }
    if !found {
        return Ok(());
    }
    if !supports_vision {
        return Err(three(
            "The loaded model `",
            model_name,
            "` does not advertise vision support, but this conversation contains image input.",
        ));
    }
    if !runtime_ready {
        return Err(three(
            "This conversation contains image input, but `",
            model_name,
            "` was started without a matching mmproj sidecar. Reload a vision-ready model before continuing.",
        ));
    }
    Ok(())
}

/// How a chat request is served.
#[derive(Clone, Copy, Debug, PartialEq, Eq, Structural)]
pub enum ChatRoute {
    /// A single OpenAI-style chat completion with image parts.
    VisionCompletion,
    /// llama-server's own streamed chat endpoint.
    NativeChat,
    /// A streamed raw completion of the rendered prompt.
    Completion,
}

/// A pasted image goes through the OpenAI-style endpoint, except for
/// Qwen 3.5, which always uses the native chat endpoint; everything else is
/// a completion of the rendered prompt.
pub fn chat_route(has_inline_image: bool, family: ModelFamily) -> (r: ChatRoute)
    ensures
        r == (if has_inline_image && family != ModelFamily::Qwen3_5 {
            ChatRoute::VisionCompletion
        } else if family == ModelFamily::Qwen3_5 {
            ChatRoute::NativeChat
        } else {
            ChatRoute::Completion
        }),
{
    if has_inline_image && family != ModelFamily::Qwen3_5 {
        ChatRoute::VisionCompletion
    } else if family == ModelFamily::Qwen3_5 {
        ChatRoute::NativeChat
    } else {
        ChatRoute::Completion
    }
}

/// A message of the rendered conversation.
#[derive(Clone, Debug, PartialEq, Eq)]
pub struct ChatMessage {
    pub role: String,
    pub content: String,
}

/// An image sent beside the prompt, referred to by its marker.
#[derive(Clone, Debug, PartialEq, Eq)]
pub struct ImageData {
    pub data: String,
    pub id: u32,
}

/// The marker that stands for image `id` in a prompt.
pub open spec fn image_marker(id: nat) -> Seq<char> {
    "[img-"@ + decimal(id) + "]"@
}

/// Images among the first `n` messages.
pub open spec fn images_before(ms: Seq<MessageModel>, n: int) -> nat
    decreases n,
{
    if n <= 0 {
        0
    } else {
        images_before(ms, n - 1) + if ms[n - 1].image is Some {
            1nat
        } else {
            0nat
        }
    }
}

/// A message's content with its image marker in front (alone when the
/// content is blank).
pub open spec fn marked_content(m: MessageModel, id: nat) -> Seq<char> {
    if m.image is Some {
        if trim(m.content).len() == 0 {
            image_marker(id)
        } else {
            image_marker(id) + "\n"@ + m.content
        }
    } else {
        m.content
    }
}

proof fn lemma_images_before_bound(ms: Seq<MessageModel>, n: int)
    requires
        0 <= n <= ms.len(),
    ensures
        images_before(ms, n) <= n,
    decreases n,
{
    if n > 0 {
        lemma_images_before_bound(ms, n - 1);
    }
}

proof fn lemma_images_before_mono(ms: Seq<MessageModel>, j: int, i: int)
    requires
        0 <= j < i <= ms.len(),
        ms[j].image is Some,
    ensures
        images_before(ms, j) + 1 <= images_before(ms, i),
    decreases i - j,
{
    if i > j + 1 {
        lemma_images_before_mono(ms, j, i - 1);
    }
}

/// Number the attached images in order, from 1: each image's marker goes
/// in front of its message's text, and the image is sent under that number.
pub fn number_image_markers(messages: &Vec<PreparedMessage>) -> (r: (Vec<ChatMessage>, Vec<ImageData>))
    requires
        messages@.len() < u32::MAX,
    ensures
        r.0@.len() == messages@.len(),
        forall|i: int|
            0 <= i < messages@.len() ==> (#[trigger] r.0@[i]).role@ == messages@[i].role@ && r.0@[i].content@
                == marked_content(messages@[i]@, images_before(messages_view(messages@), i) + 1),
        r.1@.len() == images_before(messages_view(messages@), messages@.len() as int),
        forall|i: int|
            0 <= i < messages@.len() && (#[trigger] messages@[i]).image_base64 is Some ==> {
                &&& r.1@[images_before(messages_view(messages@), i) as int].id == images_before(
                    messages_view(messages@),
                    i,
                ) + 1
                &&& r.1@[images_before(messages_view(messages@), i) as int].data@ == messages@[i].image_base64->0@
            },
{
    let ghost ms = messages_view(messages@);
    let mut out: Vec<ChatMessage> = Vec::new();
    let mut images: Vec<ImageData> = Vec::new();
    let mut next_id: u32 = 1;
    let mut i: usize = 0;
    while i < messages.len()
        invariant
            i <= messages@.len(),
            messages@.len() < u32::MAX,
            ms == messages_view(messages@),
            out@.len() == i,
            images@.len() == images_before(ms, i as int),
            next_id == images_before(ms, i as int) + 1,
            forall|j: int|
                0 <= j < i ==> (#[trigger] out@[j]).role@ == messages@[j].role@ && out@[j].content@
                    == marked_content(messages@[j]@, images_before(ms, j) + 1),
            forall|j: int|
                0 <= j < i && (#[trigger] messages@[j]).image_base64 is Some ==> {
                    &&& images@[images_before(ms, j) as int].id == images_before(ms, j) + 1
                    &&& images@[images_before(ms, j) as int].data@ == messages@[j].image_base64->0@
                },
        decreases messages@.len() - i,
    {
        proof {
            lemma_images_before_bound(ms, i as int);
            assert forall|j: int| 0 <= j < i && (#[trigger] messages@[j]).image_base64 is Some implies images_before(ms, j) + 1
                <= images_before(ms, i as int) by {
                assert(ms[j] == messages@[j]@);
                lemma_images_before_mono(ms, j, i as int);
            }
        }
        let ghost images0 = images@;
        let m = &messages[i];
        assert(ms[i as int] == m@);
        let content = match &m.image_base64 {
            Some(data) => {
                let marker = string_of(
                    &concat_text(&concat_text(&chars_of("[img-"), &decimal_chars(next_id as u64)), &chars_of("]")),
                );
                let text = if trim_str(m.content.as_str()).len() == 0 {
                    marker
                } else {
                    string_of(
                        &concat_text(&concat_text(&chars_of(marker.as_str()), &chars_of("\n")), &chars_of(m.content.as_str())),
                    )
                };
                images.push(ImageData { data: data.clone(), id: next_id });
                next_id = next_id + 1;
                text
            },
            None => m.content.clone(),
        };
        out.push(ChatMessage { role: m.role.clone(), content });
        proof {
            assert(images_before(ms, i + 1) == images_before(ms, i as int) + if ms[i as int].image is Some {
                1nat
            } else {
                0nat
            });
            assert forall|j: int| 0 <= j < i && (#[trigger] messages@[j]).image_base64 is Some implies images@[images_before(ms, j) as int]
                == images0[images_before(ms, j) as int] by {}
        }
        i += 1;
    }
    (out, images)
}

/// How a finished generation is recorded.
pub fn generation_final_status(cancelled: bool) -> (s: &'static str)
    ensures
        s@ == (if cancelled { "cancelled"@ } else { "completed"@ }),
{
    if cancelled {
        "cancelled"
    } else {
        "completed"
    }
}

/// How a benchmark generation ended: cancelled, failed with the stream's
/// error when it produced no text, or usable (an error after some text
/// still leaves a result).
pub fn benchmark_verdict(cancelled: bool, stream_error: Option<String>, raw_response: &str) -> (r: Result<(), String>)
    ensures
        cancelled ==> (r matches Err(m) && m@ == "Benchmark cancelled"@),
        !cancelled ==> match stream_error {
            Some(e) => if trim(raw_response@).len() == 0 {
                r matches Err(m) && m@ == e@
            } else {
                r is Ok
            },
            None => r is Ok,
        },
{
    if cancelled {
        return Err("Benchmark cancelled".to_string());
    }
    match stream_error {
        Some(e) => {
            if trim_str(raw_response).len() == 0 {
                Err(e)
            } else {
                Ok(())
            }
        },
        None => Ok(()),
    }
}

} // verus!

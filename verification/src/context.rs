//! Keeping a conversation inside the model's context window.
//!
//! The context is seen as layers: a pinned prefix, a rolling window of
//! recent messages, and compressed summaries of older ones. As the window
//! fills, the strategy asks for compression and finally for a rebuild.

use vstd::prelude::*;
use crate::engine::process::ProcessState;
use crate::text::{chars_of, concat_chars, decimal, decimal_chars, join_with, string_of, trim, trim_chars, utf8_len};

verus! {

broadcast use vstd::string::group_string_axioms;

/// A layer of the context window.
#[derive(Clone, Debug)]
pub enum ContextLayer {
    /// System prompt and tool definitions; never evicted.
    Pinned { token_count: u32 },
    /// The most recent messages; the oldest leave first.
    Rolling { message_ids: Vec<i64>, token_count: u32 },
    /// A summary standing for older messages.
    Compressed { summary: String, original_count: u32, token_count: u32 },
}

/// What the context strategy decides to do.
#[derive(Clone, Copy, Debug, PartialEq, Eq, Structural)]
pub enum ContextAction {
    /// Everything fits.
    NoAction,
    /// Summarise the oldest `message_count` rolling messages.
    Compress { message_count: u32 },
    /// Rebuild the whole context from the session store.
    Rebuild,
}

/// The decision for a window of `total` tokens of which `used` are taken,
/// with `rolling` messages in the rolling layer: rebuild from 95% full;
/// from 80% full, with more than four rolling messages, compress a third of
/// them (at least two); otherwise nothing.
pub open spec fn action_for(used: nat, total: nat, rolling: nat) -> ContextAction {
    if total == 0 {
        ContextAction::NoAction
    } else if 100 * used >= 95 * total {
        ContextAction::Rebuild
    } else if 100 * used >= 80 * total && rolling > 4 {
        ContextAction::Compress {
            message_count: (if rolling / 3 >= 2 { rolling / 3 } else { 2 }) as u32,
        }
    } else {
        ContextAction::NoAction
    }
}

/// Decide how to keep the context within its window.
pub fn decide_action(used_tokens: u32, total_tokens: u32, rolling_message_count: u32) -> (a: ContextAction)
    ensures
        a == action_for(used_tokens as nat, total_tokens as nat, rolling_message_count as nat),
{
    if total_tokens == 0 {
        return ContextAction::NoAction;
    }
    let used: u64 = used_tokens as u64;
    let total: u64 = total_tokens as u64;
    if 100 * used >= 95 * total {
        ContextAction::Rebuild
    } else if 100 * used >= 80 * total && rolling_message_count > 4 {
        let third = rolling_message_count / 3;
        ContextAction::Compress { message_count: if third >= 2 { third } else { 2 } }
    } else {
        ContextAction::NoAction
    }
}

/// A fuller window never calls for a milder action: rebuilding at some fill
/// level means rebuilding at every higher one, and compressing means at
/// least compressing.
pub proof fn lemma_action_monotone(used1: nat, used2: nat, total: nat, rolling: nat)
    requires
        used1 <= used2,
    ensures
        action_for(used1, total, rolling) is Rebuild ==> action_for(used2, total, rolling) is Rebuild,
        action_for(used1, total, rolling) is Compress ==> !(action_for(used2, total, rolling) is NoAction),
{
}

/// Only a loaded model on a running server can be asked about its context.
pub fn can_poll_context(loaded: bool, process_state: ProcessState) -> (b: bool)
    ensures
        b == (loaded && process_state == ProcessState::Running),
{
    loaded && process_state == ProcessState::Running
}

/// The longest prefix of `s` that encodes to at most `n` bytes.
pub open spec fn byte_prefix_len(s: Seq<char>, n: nat) -> nat
    decreases s.len(),
{
    if s.len() == 0 {
        0
    } else if utf8_len(s) <= n {
        s.len()
    } else {
        byte_prefix_len(s.drop_last(), n)
    }
}

/// `s` cut at byte `n` falls on a character boundary (or `s` is shorter).
pub open spec fn cut_on_boundary(s: Seq<char>, n: nat) -> bool {
    utf8_len(s) <= n || utf8_len(s.take(byte_prefix_len(s, n) as int)) == n
}

/// How a message appears in a summary: trimmed, and past 200 bytes cut
/// there with `...` appended.
pub open spec fn message_preview(content: Seq<char>) -> Seq<char> {
    let t = trim(content);
    if utf8_len(t) > 200 {
        t.take(byte_prefix_len(t, 200) as int) + "..."@
    } else {
        t
    }
}

/// The summary text for `messages[..k]`.
pub open spec fn summary_lines(messages: Seq<(Seq<char>, Seq<char>)>) -> Seq<char>
    decreases messages.len(),
{
    if messages.len() == 0 {
        "[Earlier conversation summary]\n"@
    } else {
        let (role, content) = messages.last();
        summary_lines(messages.drop_last()) + role + ": "@ + message_preview(content) + "\n"@
    }
}

pub open spec fn pairs_view(v: Seq<(String, String)>) -> Seq<(Seq<char>, Seq<char>)> {
    v.map_values(|p: (String, String)| (p.0@, p.1@))
}

proof fn lemma_byte_prefix(s: Seq<char>, n: nat)
    ensures
        byte_prefix_len(s, n) <= s.len(),
        utf8_len(s.take(byte_prefix_len(s, n) as int)) <= n,
    decreases s.len(),
{
    if s.len() == 0 {
        assert(s.take(0) =~= s);
    } else if utf8_len(s) <= n {
        assert(s.take(s.len() as int) =~= s);
    } else {
        lemma_byte_prefix(s.drop_last(), n);
        let k = byte_prefix_len(s.drop_last(), n);
        assert(s.take(k as int) =~= s.drop_last().take(k as int));
    }
}

fn append(out: &mut Vec<char>, piece: &[char])
    ensures
        final(out)@ == old(out)@ + piece@,
{
    let mut i: usize = 0;
    while i < piece.len()
        invariant
            i <= piece.len(),
            out@ == old(out)@ + piece@.take(i as int),
        decreases piece.len() - i,
    {
        out.push(piece[i]);
        i += 1;
        assert(out@ =~= old(out)@ + piece@.take(i as int));
    }
    assert(piece@.take(i as int) =~= piece@);
}

fn preview_exec(content: &str) -> (r: Vec<char>)
    requires
        cut_on_boundary(trim(content@), 200),
    ensures
        r@ == message_preview(content@),
{
    let t = trim_chars(&chars_of(content));
    let mut bytes: usize = 0;
    let mut k: usize = 0;
    proof {
        assert(t@.take(0) =~= Seq::<char>::empty());
        assert(vstd::utf8::encode_utf8(Seq::<char>::empty()) =~= Seq::<u8>::empty());
    }
    while k < t.len() && bytes + crate::text::char_utf8_len_exec(t[k]) <= 200
        invariant
            k <= t.len(),
            bytes == utf8_len(t@.take(k as int)),
            bytes <= 200,
        decreases t.len() - k,
    {
        let c = crate::text::char_utf8_len_exec(t[k]);
        proof {
            assert(t@.take((k + 1) as int) =~= t@.take(k as int).push(t@[k as int]));
            crate::text::lemma_utf8_len_push(t@.take(k as int), t@[k as int]);
        }
        bytes = bytes + c;
        k += 1;
    }
    assert(t@.take(t.len() as int) =~= t@);
    if k == t.len() {
        return t;
    }
    proof {
        assert(t@.take((k + 1) as int) =~= t@.take(k as int).push(t@[k as int]));
        crate::text::lemma_utf8_len_push(t@.take(k as int), t@[k as int]);
        crate::text::lemma_utf8_len_split(t@, k + 1);
        lemma_byte_prefix_is(t@, 200, k as nat);
    }
    let mut r: Vec<char> = Vec::new();
    let head = crate::text::slice_chars(&t, 0, k);
    append(&mut r, &head);
    append(&mut r, &chars_of("..."));
    r
}

proof fn lemma_byte_prefix_is(s: Seq<char>, n: nat, k: nat)
    requires
        k < s.len(),
        utf8_len(s.take(k as int)) <= n,
        utf8_len(s.take((k + 1) as int)) > n,
    ensures
        utf8_len(s) > n,
        byte_prefix_len(s, n) == k,
    decreases s.len(),
{
    crate::text::lemma_utf8_len_split(s, (k + 1) as int);
    if s.len() == k + 1 {
        assert(s.take((k + 1) as int) =~= s);
        assert(s.drop_last() =~= s.take(k as int));
        let t = s.drop_last();
        if t.len() > 0 {
            assert(t.take(t.len() as int) =~= t);
        }
        lemma_prefix_fits(t, n);
    } else {
        let t = s.drop_last();
        assert(t.take(k as int) =~= s.take(k as int));
        assert(t.take((k + 1) as int) =~= s.take((k + 1) as int));
        lemma_byte_prefix_is(t, n, k);
    }
}

proof fn lemma_prefix_fits(t: Seq<char>, n: nat)
    requires
        utf8_len(t) <= n,
    ensures
        byte_prefix_len(t, n) == t.len(),
{
}

/// A plain-text stand-in for older messages: one `role: preview` line per
/// message under a heading, or nothing for no messages.
pub fn compress_messages(messages: &[(String, String)]) -> (r: String)
    requires
        forall|i: int| 0 <= i < messages@.len() ==> cut_on_boundary(trim((#[trigger] messages@[i]).1@), 200),
    ensures
        messages@.len() == 0 ==> r@.len() == 0,
        messages@.len() > 0 ==> r@ == summary_lines(pairs_view(messages@)),
{
    if messages.len() == 0 {
        return String::new();
    }
    let ghost pv = pairs_view(messages@);
    let mut out = chars_of("[Earlier conversation summary]\n");
    let mut i: usize = 0;
    assert(pv.take(0) =~= Seq::<(Seq<char>, Seq<char>)>::empty());
    while i < messages.len()
        invariant
            i <= messages.len(),
            pv == pairs_view(messages@),
            forall|j: int| 0 <= j < messages@.len() ==> cut_on_boundary(trim((#[trigger] messages@[j]).1@), 200),
            out@ == summary_lines(pv.take(i as int)),
        decreases messages.len() - i,
    {
        let (role, content) = &messages[i];
        assert(pv.take(i + 1).drop_last() =~= pv.take(i as int));
        assert(pv.take(i + 1).last() == (role@, content@));
        append(&mut out, &chars_of(role.as_str()));
        append(&mut out, &chars_of(": "));
        let preview = preview_exec(content.as_str());
        append(&mut out, &preview);
        append(&mut out, &chars_of("\n"));
        i += 1;
    }
    assert(pv.take(i as int) =~= pv);
    string_of(&out)
}

// ---------------------------------------------------------------------------
// After a chat turn
// ---------------------------------------------------------------------------

/// A message of the session store as the follow-up reads it.
#[derive(Clone, Debug)]
pub struct StoredMessage {
    pub role: String,
    pub content: Option<String>,
}

/// User and assistant messages make up the rolling window.
pub open spec fn in_rolling_window(role: Seq<char>) -> bool {
    role == "user"@ || role == "assistant"@
}

pub open spec fn content_or_empty(c: Option<String>) -> Seq<char> {
    match c {
        Some(s) => s@,
        None => Seq::empty(),
    }
}

/// The rolling-window messages in order, as `(role, content)` with a
/// missing content as empty text.
pub open spec fn rolling_pairs(ms: Seq<StoredMessage>) -> Seq<(Seq<char>, Seq<char>)>
    decreases ms.len(),
{
    if ms.len() == 0 {
        Seq::empty()
    } else {
        let rest = rolling_pairs(ms.drop_last());
        if in_rolling_window(ms.last().role@) {
            rest.push((ms.last().role@, content_or_empty(ms.last().content)))
        } else {
            rest
        }
    }
}

/// The note shown for an action, if it calls for one.
pub open spec fn action_label(a: ContextAction) -> Option<Seq<char>> {
    match a {
        ContextAction::NoAction => None,
        ContextAction::Compress { message_count } => Some(
            "Context nearing capacity; compressing "@ + decimal(message_count as nat) + " older messages."@,
        ),
        ContextAction::Rebuild => Some("Context critically full; a rebuild is recommended."@),
    }
}

/// What to do after a chat turn, from the server's context figures and the
/// session's messages.
#[derive(Clone, Debug)]
pub struct ContextFollowUp {
    /// Tokens in the rolling window: those used beyond the compressed ones.
    pub rolling_tokens: u32,
    /// Tokens of the latest compressed summary.
    pub compressed_tokens: u32,
    pub action: ContextAction,
    pub action_label: Option<String>,
    /// The oldest rolling messages to summarise, when compressing.
    pub compressible: Vec<(String, String)>,
}

pub open spec fn opt_view(o: Option<String>) -> Option<Seq<char>> {
    match o {
        Some(s) => Some(s@),
        None => None,
    }
}

pub open spec fn string_pairs_view(v: Seq<(String, String)>) -> Seq<(Seq<char>, Seq<char>)> {
    v.map_values(|p: (String, String)| (p.0@, p.1@))
}

fn rolling_messages(messages: &Vec<StoredMessage>) -> (r: Vec<(String, String)>)
    ensures
        string_pairs_view(r@) == rolling_pairs(messages@),
{
    let mut r: Vec<(String, String)> = Vec::new();
    let mut i: usize = 0;
    while i < messages.len()
        invariant
            i <= messages.len(),
            string_pairs_view(r@) == rolling_pairs(messages@.take(i as int)),
        decreases messages.len() - i,
    {
        let m = &messages[i];
        let ghost before = string_pairs_view(r@);
        let role = chars_of(m.role.as_str());
        let user = role.len() == 4 && role[0] == 'u' && role[1] == 's' && role[2] == 'e' && role[3] == 'r';
        let assistant = role.len() == 9 && role[0] == 'a' && role[1] == 's' && role[2] == 's' && role[3]
            == 'i' && role[4] == 's' && role[5] == 't' && role[6] == 'a' && role[7] == 'n' && role[8]
            == 't';
        proof {
            reveal_strlit("user");
            reveal_strlit("assistant");
            assert(user == (m.role@ == "user"@)) by {
                if m.role@ == "user"@ {
                    assert(role@ == "user"@);
                }
                if user {
                    assert(role@ =~= "user"@);
                }
            }
            assert(assistant == (m.role@ == "assistant"@)) by {
                if m.role@ == "assistant"@ {
                    assert(role@ == "assistant"@);
                }
                if assistant {
                    assert(role@ =~= "assistant"@);
                }
            }
        }
        let ghost t = messages@.take(i + 1);
        assert(t.drop_last() =~= messages@.take(i as int));
        assert(t.last() == messages@[i as int]);
        if user || assistant {
            let content = match &m.content {
                Some(c) => c.clone(),
                None => String::new(),
            };
            let pair = (m.role.clone(), content);
            r.push(pair);
            assert(string_pairs_view(r@) =~= before.push((m.role@, content_or_empty(m.content))));
        }
        i += 1;
    }
    assert(messages@.take(i as int) =~= messages@);
    r
}

/// Plan the follow-up of a chat turn: the context breakdown, the strategy's
/// decision with the note shown for it, and, when compressing, the oldest
/// rolling messages to summarise.
pub fn plan_context_follow_up(
    used_tokens: u32,
    total_tokens: u32,
    messages: &Vec<StoredMessage>,
    latest_summary_tokens: Option<u32>,
) -> (f: ContextFollowUp)
    ensures
        f.compressed_tokens == match latest_summary_tokens { Some(t) => t, None => 0 },
        f.rolling_tokens == if used_tokens >= f.compressed_tokens { used_tokens - f.compressed_tokens } else { 0 },
        f.action == action_for(
            used_tokens as nat,
            total_tokens as nat,
            (rolling_pairs(messages@).len() as u32) as nat,
        ),
        opt_view(f.action_label) == action_label(f.action),
        string_pairs_view(f.compressible@) == match f.action {
            ContextAction::Compress { message_count } => if message_count <= rolling_pairs(messages@).len() {
                rolling_pairs(messages@).take(message_count as int)
            } else {
                rolling_pairs(messages@)
            },
            _ => Seq::empty(),
        },
{
    let compressed_tokens = match latest_summary_tokens {
        Some(t) => t,
        None => 0,
    };
    let rolling_tokens = used_tokens.saturating_sub(compressed_tokens);
    let rolling = rolling_messages(messages);
    #[verifier::truncate]
    let count = rolling.len() as u32;
    let action = decide_action(used_tokens, total_tokens, count);
    let (action_label, compressible) = match action {
        ContextAction::NoAction => {
            let none: Vec<(String, String)> = Vec::new();
            assert(string_pairs_view(none@) =~= Seq::<(Seq<char>, Seq<char>)>::empty());
            (None, none)
        },
        ContextAction::Compress { message_count } => {
            let label = concat_chars(
                &concat_chars(&chars_of("Context nearing capacity; compressing "), &decimal_chars(message_count as u64)),
                &chars_of(" older messages."),
            );
            let mut taken: Vec<(String, String)> = Vec::new();
            let mut i: usize = 0;
            while i < rolling.len() && (i as u64) < (message_count as u64)
                invariant
                    i <= rolling.len(),
                    i <= message_count,
                    string_pairs_view(taken@) == string_pairs_view(rolling@).take(i as int),
                decreases rolling.len() - i,
            {
                let p = (rolling[i].0.clone(), rolling[i].1.clone());
                let ghost before = string_pairs_view(taken@);
                taken.push(p);
                assert(string_pairs_view(taken@) =~= before.push((rolling@[i as int].0@, rolling@[i as int].1@)));
                i += 1;
                assert(string_pairs_view(rolling@).take(i as int) =~= string_pairs_view(rolling@).take(i - 1).push(
                    (rolling@[i - 1].0@, rolling@[i - 1].1@),
                ));
            }
            if message_count as usize > rolling.len() {
                assert(string_pairs_view(rolling@).take(i as int) =~= string_pairs_view(rolling@));
            }
            (Some(string_of(&label)), taken)
        },
        ContextAction::Rebuild => {
            let none: Vec<(String, String)> = Vec::new();
            assert(string_pairs_view(none@) =~= Seq::<(Seq<char>, Seq<char>)>::empty());
            (Some("Context critically full; a rebuild is recommended.".to_string()), none)
        },
    };
    ContextFollowUp { rolling_tokens, compressed_tokens, action, action_label, compressible }
}

/// A summary's size in tokens, estimated as a quarter of its length in
/// bytes (the length taken as a `u32`), and at least one.
pub fn summary_token_estimate(summary_len: usize) -> (n: u32)
    ensures
        n == if (summary_len as u32) / 4 >= 1 { (summary_len as u32) / 4 } else { 1 },
{
    #[verifier::truncate]
    let len = summary_len as u32;
    let quarter = len / 4;
    if quarter >= 1 {
        quarter
    } else {
        1
    }
}

pub open spec fn request_lines(ms: Seq<(Seq<char>, Seq<char>)>) -> Seq<Seq<char>> {
    ms.map_values(|p: (Seq<char>, Seq<char>)| p.0 + ": "@ + p.1)
}

/// The text the model is asked to summarise: one `role: content` block per
/// message, blank lines between them.
pub fn summary_request_text(messages: &[(String, String)]) -> (r: String)
    ensures
        r@ == join_with(request_lines(string_pairs_view(messages@)), "\n\n"@),
{
    let mut parts: Vec<Vec<char>> = Vec::new();
    let mut i: usize = 0;
    while i < messages.len()
        invariant
            i <= messages.len(),
            parts@.map_values(|p: Vec<char>| p@) == request_lines(string_pairs_view(messages@)).take(i as int),
        decreases messages.len() - i,
    {
        let line = concat_chars(&concat_chars(&chars_of(messages[i].0.as_str()), &chars_of(": ")), &chars_of(messages[i].1.as_str()));
        let ghost before = parts@.map_values(|p: Vec<char>| p@);
        parts.push(line);
        assert(parts@.map_values(|p: Vec<char>| p@) =~= before.push(line@));
        i += 1;
        assert(request_lines(string_pairs_view(messages@)).take(i as int) =~= request_lines(
            string_pairs_view(messages@),
        ).take(i - 1).push(messages@[i - 1].0@ + ": "@ + messages@[i - 1].1@));
    }
    assert(request_lines(string_pairs_view(messages@)).take(i as int) =~= request_lines(string_pairs_view(messages@)));
    string_of(&crate::text::join_chars(&parts, &chars_of("\n\n")))
}

} // verus!

//! Accumulating llama-server's native (OpenAI-shaped) chat stream.
//!
//! Each decoded chunk may carry token usage, a finish reason, and a delta of
//! content, reasoning and tool calls. Tool calls arrive in pieces keyed by
//! their index; the pieces of one call are joined in arrival order and the
//! calls are kept in index order. The JSON reading and the rendering of a
//! finished call as JSON are done by the caller; timing figures travel
//! beside the accumulator.

use vstd::prelude::*;
use crate::text::{chars_of, concat_chars, string_of};

verus! {

broadcast use vstd::string::group_string_axioms;

pub open spec fn opt_view(o: Option<String>) -> Option<Seq<char>> {
    match o {
        Some(s) => Some(s@),
        None => None,
    }
}

/// One piece of a streamed tool call.
#[derive(Clone, Debug)]
pub struct ToolCallPiece {
    /// The call's index, if the piece states one.
    pub index: Option<u64>,
    pub id: Option<String>,
    pub name: Option<String>,
    pub arguments: Option<String>,
}

/// The delta of one chunk's first choice.
#[derive(Clone, Debug)]
pub struct NativeDelta {
    pub content: Option<String>,
    /// `reasoning_content`, or else `reasoning`.
    pub reasoning: Option<String>,
    pub tool_calls: Vec<ToolCallPiece>,
    /// The delta's tool calls as JSON text, when they are a non-empty list.
    pub tool_calls_json: Option<String>,
}

/// What one chunk carries.
#[derive(Clone, Debug)]
pub struct NativeChunk {
    /// Whether the chunk has a `usage` object, and its token counts.
    pub has_usage: bool,
    pub prompt_tokens: Option<u64>,
    pub completion_tokens: Option<u64>,
    /// Whether the chunk has a first choice.
    pub has_choice: bool,
    pub finish_reason: Option<String>,
    /// The choice's `delta` (or else `message`).
    pub delta: Option<NativeDelta>,
}

/// A tool call as accumulated so far.
#[derive(Clone, Debug, PartialEq, Eq)]
pub struct NativeToolCall {
    pub index: u64,
    pub id: Option<String>,
    pub name: String,
    pub arguments: String,
}

pub ghost struct CallModel {
    pub index: u64,
    pub id: Option<Seq<char>>,
    pub name: Seq<char>,
    pub arguments: Seq<char>,
}

impl View for NativeToolCall {
    type V = CallModel;

    open spec fn view(&self) -> CallModel {
        CallModel { index: self.index, id: opt_view(self.id), name: self.name@, arguments: self.arguments@ }
    }
}

pub open spec fn calls_view(v: Seq<NativeToolCall>) -> Seq<CallModel> {
    v.map_values(|c: NativeToolCall| c@)
}

/// Calls in strictly increasing index order.
pub open spec fn index_sorted(calls: Seq<CallModel>) -> bool {
    forall|i: int, j: int| 0 <= i < j < calls.len() ==> calls[i].index < calls[j].index
}

/// Where a call with index `idx` is, or would go.
pub open spec fn slot_of(calls: Seq<CallModel>, idx: u64) -> int
    decreases calls.len(),
{
    if calls.len() == 0 || calls[0].index >= idx {
        0
    } else {
        1 + slot_of(calls.drop_first(), idx)
    }
}

/// A piece applied to a call: a given id replaces the id, a name and
/// arguments are appended.
pub open spec fn apply_piece(c: CallModel, id: Option<Seq<char>>, name: Option<Seq<char>>, arguments: Option<Seq<char>>) -> CallModel {
    CallModel {
        index: c.index,
        id: if id is Some { id } else { c.id },
        name: match name {
            Some(n) => c.name + n,
            None => c.name,
        },
        arguments: match arguments {
            Some(a) => c.arguments + a,
            None => c.arguments,
        },
    }
}

/// The calls after a piece for the call `idx`: that call updated, or a new
/// empty call with the piece applied, put in index order.
pub open spec fn upsert(
    calls: Seq<CallModel>,
    idx: u64,
    id: Option<Seq<char>>,
    name: Option<Seq<char>>,
    arguments: Option<Seq<char>>,
) -> Seq<CallModel> {
    let p = slot_of(calls, idx);
    if p < calls.len() && calls[p].index == idx {
        calls.update(p, apply_piece(calls[p], id, name, arguments))
    } else {
        calls.insert(p, apply_piece(CallModel { index: idx, id: None, name: seq![], arguments: seq![] }, id, name, arguments))
    }
}

/// The pieces of one delta applied in order; a piece without an index
/// counts as the one at its position in the list.
pub open spec fn apply_pieces(calls: Seq<CallModel>, pieces: Seq<ToolCallPiece>) -> Seq<CallModel>
    decreases pieces.len(),
{
    if pieces.len() == 0 {
        calls
    } else {
        let k = pieces.len() - 1;
        let prev = apply_pieces(calls, pieces.drop_last());
        let p = pieces[k];
        upsert(
            prev,
            match p.index {
                Some(i) => i,
                None => k as u64,
            },
            opt_view(p.id),
            opt_view(p.name),
            opt_view(p.arguments),
        )
    }
}

proof fn lemma_slot_of(calls: Seq<CallModel>, idx: u64)
    requires
        index_sorted(calls),
    ensures
        0 <= slot_of(calls, idx) <= calls.len(),
        forall|i: int| 0 <= i < slot_of(calls, idx) ==> calls[i].index < idx,
        forall|i: int| slot_of(calls, idx) <= i < calls.len() ==> calls[i].index >= idx,
    decreases calls.len(),
{
    if calls.len() > 0 && calls[0].index < idx {
        let rest = calls.drop_first();
        assert forall|i: int, j: int| 0 <= i < j < rest.len() implies rest[i].index < rest[j].index by {
            assert(rest[i] == calls[i + 1] && rest[j] == calls[j + 1]);
        }
        lemma_slot_of(rest, idx);
        let s = slot_of(calls, idx);
        assert forall|i: int| 0 <= i < s implies calls[i].index < idx by {
            if i > 0 {
                assert(calls[i] == rest[i - 1]);
            }
        }
        assert forall|i: int| s <= i < calls.len() implies calls[i].index >= idx by {
            assert(calls[i] == rest[i - 1]);
        }
    } else if calls.len() > 0 {
        assert forall|i: int| 0 <= i < calls.len() implies calls[i].index >= idx by {
            if i > 0 {
                assert(calls[0].index < calls[i].index);
            }
        }
    }
}

proof fn lemma_upsert_sorted(
    calls: Seq<CallModel>,
    idx: u64,
    id: Option<Seq<char>>,
    name: Option<Seq<char>>,
    arguments: Option<Seq<char>>,
)
    requires
        index_sorted(calls),
    ensures
        index_sorted(upsert(calls, idx, id, name, arguments)),
        upsert(calls, idx, id, name, arguments).len() >= calls.len(),
        upsert(calls, idx, id, name, arguments).len() <= calls.len() + 1,
{
    lemma_slot_of(calls, idx);
    let p = slot_of(calls, idx);
    let r = upsert(calls, idx, id, name, arguments);
    if p < calls.len() && calls[p].index == idx {
        assert forall|i: int, j: int| 0 <= i < j < r.len() implies r[i].index < r[j].index by {
            assert(r[i].index == calls[i].index);
            assert(r[j].index == calls[j].index);
        }
    } else {
        assert forall|i: int, j: int| 0 <= i < j < r.len() implies r[i].index < r[j].index by {
            if i < p {
                assert(r[i] == calls[i]);
            } else if i == p {
                assert(r[i].index == idx);
            } else {
                assert(r[i] == calls[i - 1]);
            }
            if j < p {
                assert(r[j] == calls[j]);
            } else if j == p {
                assert(r[j].index == idx);
            } else {
                assert(r[j] == calls[j - 1]);
            }
        }
    }
}

proof fn lemma_apply_pieces_sorted(calls: Seq<CallModel>, pieces: Seq<ToolCallPiece>)
    requires
        index_sorted(calls),
    ensures
        index_sorted(apply_pieces(calls, pieces)),
        apply_pieces(calls, pieces).len() <= calls.len() + pieces.len(),
    decreases pieces.len(),
{
    if pieces.len() > 0 {
        let k = pieces.len() - 1;
        lemma_apply_pieces_sorted(calls, pieces.drop_last());
        let p = pieces[k];
        lemma_upsert_sorted(
            apply_pieces(calls, pieces.drop_last()),
            match p.index {
                Some(i) => i,
                None => k as u64,
            },
            opt_view(p.id),
            opt_view(p.name),
            opt_view(p.arguments),
        );
    }
}

/// What the accumulator holds.
pub ghost struct AccumulatorModel {
    pub content: Seq<char>,
    pub reasoning: Seq<char>,
    pub tool_calls: Seq<CallModel>,
    pub prompt_tokens: u32,
    pub completion_tokens: u32,
    pub finish_reason: Option<Seq<char>>,
}

/// The streamed chat gathered so far.
pub struct NativeChatAccumulator {
    content: String,
    reasoning: String,
    tool_calls: Vec<NativeToolCall>,
    prompt_tokens: u32,
    completion_tokens: u32,
    finish_reason: Option<String>,
}

impl View for NativeChatAccumulator {
    type V = AccumulatorModel;

    closed spec fn view(&self) -> AccumulatorModel {
        AccumulatorModel {
            content: self.content@,
            reasoning: self.reasoning@,
            tool_calls: calls_view(self.tool_calls@),
            prompt_tokens: self.prompt_tokens,
            completion_tokens: self.completion_tokens,
            finish_reason: opt_view(self.finish_reason),
        }
    }
}

/// A token count kept when it fits 32 bits; otherwise the old count stays.
pub open spec fn count_or(v: Option<u64>, old: u32) -> u32 {
    match v {
        Some(n) => if n <= u32::MAX { n as u32 } else { old },
        None => old,
    }
}

/// A text piece that counts: given and not empty.
pub open spec fn nonempty(o: Option<String>) -> Option<Seq<char>> {
    match o {
        Some(s) => if s@.len() > 0 {
            Some(s@)
        } else {
            None
        },
        None => None,
    }
}

/// The accumulator after a chunk, and the content, reasoning and tool-call
/// text the chunk adds.
pub open spec fn merged(a: AccumulatorModel, c: NativeChunk) -> (AccumulatorModel, Option<Seq<char>>, Option<Seq<char>>, Option<Seq<char>>) {
    let a1 = if c.has_usage {
        AccumulatorModel {
            prompt_tokens: count_or(c.prompt_tokens, a.prompt_tokens),
            completion_tokens: count_or(c.completion_tokens, a.completion_tokens),
            ..a
        }
    } else {
        a
    };
    if !c.has_choice {
        (a1, None, None, None)
    } else {
        let a2 = if c.finish_reason is Some {
            AccumulatorModel { finish_reason: opt_view(c.finish_reason), ..a1 }
        } else {
            a1
        };
        match c.delta {
            None => (a2, None, None, None),
            Some(d) => {
                let content = nonempty(d.content);
                let reasoning = nonempty(d.reasoning);
                let a3 = AccumulatorModel {
                    content: match content {
                        Some(t) => a2.content + t,
                        None => a2.content,
                    },
                    reasoning: match reasoning {
                        Some(t) => a2.reasoning + t,
                        None => a2.reasoning,
                    },
                    tool_calls: apply_pieces(a2.tool_calls, d.tool_calls@),
                    ..a2
                };
                (a3, content, reasoning, opt_view(d.tool_calls_json))
            },
        }
    }
}

fn append(s: &String, t: &str) -> (r: String)
    ensures
        r@ == s@ + t@,
{
    string_of(&concat_chars(&chars_of(s.as_str()), &chars_of(t)))
}

fn clone_opt(o: &Option<String>) -> (r: Option<String>)
    ensures
        opt_view(r) == opt_view(*o),
{
    match o {
        Some(s) => Some(s.clone()),
        None => None,
    }
}

fn take_nonempty(o: &Option<String>) -> (r: Option<String>)
    ensures
        opt_view(r) == nonempty(*o),
{
    match o {
        Some(s) => if s.as_str().is_empty() {
            None
        } else {
            Some(s.clone())
        },
        None => None,
    }
}

impl NativeChatAccumulator {
    /// Nothing gathered yet.
    pub fn new() -> (a: Self)
        ensures
            a@ == (AccumulatorModel {
                content: seq![],
                reasoning: seq![],
                tool_calls: seq![],
                prompt_tokens: 0,
                completion_tokens: 0,
                finish_reason: None,
            }),
            a.well_formed(),
    {
        let a = NativeChatAccumulator {
            content: String::new(),
            reasoning: String::new(),
            tool_calls: Vec::new(),
            prompt_tokens: 0,
            completion_tokens: 0,
            finish_reason: None,
        };
        proof {
            reveal_strlit("");
        }
        assert(calls_view(a.tool_calls@) =~= Seq::<CallModel>::empty());
        a
    }

    pub closed spec fn well_formed(&self) -> bool {
        index_sorted(calls_view(self.tool_calls@))
    }

    pub fn prompt_tokens(&self) -> (n: u32)
        ensures
            n == self@.prompt_tokens,
    {
        self.prompt_tokens
    }

    pub fn completion_tokens(&self) -> (n: u32)
        ensures
            n == self@.completion_tokens,
    {
        self.completion_tokens
    }

    pub fn finish_reason(&self) -> (r: Option<String>)
        ensures
            opt_view(r) == self@.finish_reason,
    {
        clone_opt(&self.finish_reason)
    }

    pub fn content(&self) -> (s: String)
        ensures
            s@ == self@.content,
    {
        self.content.clone()
    }

    pub fn reasoning(&self) -> (s: String)
        ensures
            s@ == self@.reasoning,
    {
        self.reasoning.clone()
    }

    /// The tool calls so far, in index order.
    pub fn tool_calls(&self) -> (v: Vec<NativeToolCall>)
        ensures
            calls_view(v@) == self@.tool_calls,
    {
        let mut v: Vec<NativeToolCall> = Vec::new();
        let mut i: usize = 0;
        while i < self.tool_calls.len()
            invariant
                i <= self.tool_calls@.len(),
                calls_view(v@) == calls_view(self.tool_calls@).take(i as int),
            decreases self.tool_calls@.len() - i,
        {
            let c = &self.tool_calls[i];
            let copy = NativeToolCall { index: c.index, id: clone_opt(&c.id), name: c.name.clone(), arguments: c.arguments.clone() };
            let ghost before = v@;
            v.push(copy);
            assert(calls_view(v@) =~= calls_view(before).push(copy@));
            i += 1;
            assert(calls_view(v@) =~= calls_view(self.tool_calls@).take(i as int));
        }
        assert(calls_view(self.tool_calls@).take(i as int) =~= calls_view(self.tool_calls@));
        v
    }

    fn apply_piece_exec(&mut self, idx: u64, piece: &ToolCallPiece)
        requires
            old(self).well_formed(),
        ensures
            final(self).well_formed(),
            final(self)@ == (AccumulatorModel {
                tool_calls: upsert(old(self)@.tool_calls, idx, opt_view(piece.id), opt_view(piece.name), opt_view(piece.arguments)),
                ..old(self)@
            }),
    {
        let ghost calls = calls_view(self.tool_calls@);
        proof {
            lemma_slot_of(calls, idx);
            lemma_upsert_sorted(calls, idx, opt_view(piece.id), opt_view(piece.name), opt_view(piece.arguments));
        }
        let mut p: usize = 0;
        while p < self.tool_calls.len() && self.tool_calls[p].index < idx
            invariant
                p <= self.tool_calls@.len(),
                calls == calls_view(self.tool_calls@),
                index_sorted(calls),
                forall|i: int| 0 <= i < p ==> calls[i].index < idx,
            decreases self.tool_calls@.len() - p,
        {
            p += 1;
        }
        proof {
            lemma_slot_of(calls, idx);
            assert(p as int == slot_of(calls, idx)) by {
                if (p as int) < slot_of(calls, idx) {
                    assert(calls[p as int].index < idx);
                }
                if (p as int) > slot_of(calls, idx) {
                    assert(calls[slot_of(calls, idx)].index < idx);
                }
            }
        }
        let existing = p < self.tool_calls.len() && self.tool_calls[p].index == idx;
        let base = if existing {
            let c = &self.tool_calls[p];
            NativeToolCall { index: c.index, id: clone_opt(&c.id), name: c.name.clone(), arguments: c.arguments.clone() }
        } else {
            NativeToolCall { index: idx, id: None, name: String::new(), arguments: String::new() }
        };
        proof {
            reveal_strlit("");
        }
        let id = match &piece.id {
            Some(i) => Some(i.clone()),
            None => base.id,
        };
        let name = match &piece.name {
            Some(n) => append(&base.name, n.as_str()),
            None => base.name,
        };
        let arguments = match &piece.arguments {
            Some(a) => append(&base.arguments, a.as_str()),
            None => base.arguments,
        };
        let updated = NativeToolCall { index: base.index, id, name, arguments };
        let ghost before = self.tool_calls@;
        if existing {
            self.tool_calls.set(p, updated);
            assert(calls_view(self.tool_calls@) =~= calls.update(p as int, updated@));
        } else {
            self.tool_calls.insert(p, updated);
            assert(calls_view(self.tool_calls@) =~= calls.insert(p as int, updated@));
        }
    }

    /// Merge one chunk; returns the content, reasoning and tool-call text it
    /// adds, each when present and not empty.
    pub fn merge(&mut self, chunk: &NativeChunk) -> (r: (Option<String>, Option<String>, Option<String>))
        requires
            old(self).well_formed(),
        ensures
            final(self).well_formed(),
            final(self)@ == merged(old(self)@, *chunk).0,
            opt_view(r.0) == merged(old(self)@, *chunk).1,
            opt_view(r.1) == merged(old(self)@, *chunk).2,
            opt_view(r.2) == merged(old(self)@, *chunk).3,
    {
        if chunk.has_usage {
            match chunk.prompt_tokens {
                Some(n) => if n <= 0xffff_ffffu64 {
                    self.prompt_tokens = n as u32;
                },
                None => {},
            }
            match chunk.completion_tokens {
                Some(n) => if n <= 0xffff_ffffu64 {
                    self.completion_tokens = n as u32;
                },
                None => {},
            }
        }
        if !chunk.has_choice {
            return (None, None, None);
        }
        match &chunk.finish_reason {
            Some(f) => self.finish_reason = Some(f.clone()),
            None => {},
        }
        let d = match &chunk.delta {
            None => {
                return (None, None, None);
            },
            Some(d) => d,
        };
        let content = take_nonempty(&d.content);
        match &content {
            Some(t) => self.content = append(&self.content, t.as_str()),
            None => {},
        }
        let reasoning = take_nonempty(&d.reasoning);
        match &reasoning {
            Some(t) => self.reasoning = append(&self.reasoning, t.as_str()),
            None => {},
        }
        let ghost start = self@;
        let ghost pieces = d.tool_calls@;
        let mut k: usize = 0;
        assert(pieces.take(0) =~= Seq::<ToolCallPiece>::empty());
        while k < d.tool_calls.len()
            invariant
                k <= pieces.len(),
                pieces == d.tool_calls@,
                self.well_formed(),
                self@ == (AccumulatorModel { tool_calls: apply_pieces(start.tool_calls, pieces.take(k as int)), ..start }),
            decreases pieces.len() - k,
        {
            let piece = &d.tool_calls[k];
            let idx: u64 = match piece.index {
                Some(i) => i,
                None => k as u64,
            };
            proof {
                assert(pieces.take(k + 1).drop_last() =~= pieces.take(k as int));
                assert(pieces.take(k + 1)[k as int] == pieces[k as int]);
            }
            self.apply_piece_exec(idx, piece);
            k += 1;
        }
        assert(pieces.take(k as int) =~= pieces);
        (content, reasoning, clone_opt(&d.tool_calls_json))
    }
}

/// The whole answer as text: reasoning in think tags (when there is any),
/// the content, then each tool call's JSON in tool-call tags, in index
/// order. `rendered_calls` are the calls rendered as JSON, in that order.
pub open spec fn full_text_of(reasoning: Seq<char>, content: Seq<char>, rendered: Seq<Seq<char>>) -> Seq<char>
    decreases rendered.len(),
{
    if rendered.len() == 0 {
        (if reasoning.len() > 0 {
            "<think>"@ + reasoning + "</think>\n"@
        } else {
            seq![]
        }) + content
    } else {
        full_text_of(reasoning, content, rendered.drop_last()) + "<tool_call>"@ + rendered.last() + "</tool_call>"@
    }
}

pub open spec fn strings_view(v: Seq<String>) -> Seq<Seq<char>> {
    v.map_values(|s: String| s@)
}

/// Assemble the answer's full text.
pub fn native_chat_full_text(reasoning: &str, content: &str, rendered_calls: &Vec<String>) -> (s: String)
    ensures
        s@ == full_text_of(reasoning@, content@, strings_view(rendered_calls@)),
{
    let mut text: Vec<char> = if reasoning.is_empty() {
        Vec::new()
    } else {
        concat_chars(&concat_chars(&chars_of("<think>"), &chars_of(reasoning)), &chars_of("</think>\n"))
    };
    proof {
        reveal_strlit("");
    }
    text = concat_chars(&text, &chars_of(content));
    let ghost rs = strings_view(rendered_calls@);
    let mut i: usize = 0;
    assert(rs.take(0) =~= Seq::<Seq<char>>::empty());
    while i < rendered_calls.len()
        invariant
            i <= rs.len(),
            rs == strings_view(rendered_calls@),
            text@ == full_text_of(reasoning@, content@, rs.take(i as int)),
        decreases rs.len() - i,
    {
        assert(rs.take(i + 1).drop_last() =~= rs.take(i as int));
        text = concat_chars(
            &concat_chars(&concat_chars(&text, &chars_of("<tool_call>")), &chars_of(rendered_calls[i].as_str())),
            &chars_of("</tool_call>"),
        );
        i += 1;
    }
    assert(rs.take(i as int) =~= rs);
    string_of(&text)
}

/// A generation stopped at its length limit when its finish reason says
/// `length`.
pub fn stopped_at_limit(finish_reason: &Option<String>) -> (b: bool)
    ensures
        b == (opt_view(*finish_reason) == Some("length"@)),
{
    match finish_reason {
        Some(r) => crate::text::chars_equal(&chars_of(r.as_str()), &chars_of("length")),
        None => false,
    }
}

/// Pieces for a call always land on that call: after merging, the calls
/// are in strictly increasing index order and no call is lost.
pub proof fn lemma_calls_stay_ordered(calls: Seq<CallModel>, pieces: Seq<ToolCallPiece>)
    requires
        index_sorted(calls),
    ensures
        index_sorted(apply_pieces(calls, pieces)),
        apply_pieces(calls, pieces).len() >= calls.len(),
    decreases pieces.len(),
{
    lemma_apply_pieces_sorted(calls, pieces);
    if pieces.len() > 0 {
        let k = pieces.len() - 1;
        lemma_calls_stay_ordered(calls, pieces.drop_last());
        let p = pieces[k];
        lemma_upsert_sorted(
            apply_pieces(calls, pieces.drop_last()),
            match p.index {
                Some(i) => i,
                None => k as u64,
            },
            opt_view(p.id),
            opt_view(p.name),
            opt_view(p.arguments),
        );
    }
}

} // verus!

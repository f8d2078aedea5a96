//! Incremental splitter for streamed model output.
//!
//! Text streamed by llama-server arrives in arbitrary chunks. The
//! [`ContentParser`] routes it into visible tokens and reasoning deltas,
//! hides tool-call markup, stops at chat-turn boundaries, and holds back only
//! the tail of the buffer that could still grow into one of its markers.

use vstd::prelude::*;
use crate::text::{
    chars_of, find_chars, find_first, lemma_find_first, lemma_utf8_len_split, occurs_at, slice_chars,
    string_of, suffix_of, utf8_len, utf8_len_exec,
};

verus! {

broadcast use vstd::string::group_string_axioms;

// ---------------------------------------------------------------------------
// Markers
// ---------------------------------------------------------------------------

/// Markers that open a reasoning block.
pub open spec fn open_tags() -> Seq<Seq<char>> {
    seq!["<think>"@, "<|think|>"@, "<|channel>thought"@]
}

/// Markers that close a reasoning block.
pub open spec fn close_tags() -> Seq<Seq<char>> {
    seq!["</think>"@, "<|/think|>"@, "<channel|>"@]
}

/// Markers that end the assistant turn; nothing after them is shown.
pub open spec fn boundary_tags() -> Seq<Seq<char>> {
    seq![
        "<turn|>"@,
        "<|turn>"@,
        "<end_of_turn>"@,
        "<start_of_turn>"@,
        "<|im_end|>"@,
        "<|im_start|>"@,
        "<|eot_id|>"@,
        "<|start_header_id|>"@,
    ]
}

/// Markers that open streamed tool-call markup, which is never shown.
pub open spec fn tool_open_tags() -> Seq<Seq<char>> {
    seq!["<tool_call>"@, "<div class=\"tool_code\">"@, "<div class='tool_code'>"@]
}

/// The closing marker awaited after a hidden tool-call opener.
#[derive(Clone, Copy, Debug, PartialEq, Eq, Structural)]
pub enum HiddenClose {
    /// `</tool_call>`
    ToolCall,
    /// `</div>`
    Div,
}

impl HiddenClose {
    pub open spec fn marker(self) -> Seq<char> {
        match self {
            HiddenClose::ToolCall => "</tool_call>"@,
            HiddenClose::Div => "</div>"@,
        }
    }

    /// The closing marker as text.
    pub fn as_str(&self) -> (s: &'static str)
        ensures
            s@ == self.marker(),
    {
        match self {
            HiddenClose::ToolCall => "</tool_call>",
            HiddenClose::Div => "</div>",
        }
    }
}

/// Which closing marker each tool-call opener waits for.
pub open spec fn tool_close_for(k: int) -> HiddenClose {
    if k == 0 {
        HiddenClose::ToolCall
    } else {
        HiddenClose::Div
    }
}

/// Every marker the visible-text state must hold back a partial copy of.
pub open spec fn all_visible_tags() -> Seq<Seq<char>> {
    open_tags() + close_tags() + boundary_tags() + tool_open_tags()
}

pub proof fn lemma_marker_lengths()
    ensures
        forall|i: int| 0 <= i < open_tags().len() ==> #[trigger] open_tags()[i].len() > 0,
        forall|i: int| 0 <= i < close_tags().len() ==> #[trigger] close_tags()[i].len() > 0,
        forall|i: int|
            0 <= i < boundary_tags().len() ==> #[trigger] boundary_tags()[i].len() > 0,
        forall|i: int|
            0 <= i < tool_open_tags().len() ==> #[trigger] tool_open_tags()[i].len() > 0,
        HiddenClose::ToolCall.marker().len() > 0,
        HiddenClose::Div.marker().len() > 0,
{
    reveal_strlit("<think>");
    reveal_strlit("<|think|>");
    reveal_strlit("<|channel>thought");
    reveal_strlit("</think>");
    reveal_strlit("<|/think|>");
    reveal_strlit("<channel|>");
    reveal_strlit("<turn|>");
    reveal_strlit("<|turn>");
    reveal_strlit("<end_of_turn>");
    reveal_strlit("<start_of_turn>");
    reveal_strlit("<|im_end|>");
    reveal_strlit("<|im_start|>");
    reveal_strlit("<|eot_id|>");
    reveal_strlit("<|start_header_id|>");
    reveal_strlit("<tool_call>");
    reveal_strlit("<div class=\"tool_code\">");
    reveal_strlit("<div class='tool_code'>");
    reveal_strlit("</tool_call>");
    reveal_strlit("</div>");
}

// ---------------------------------------------------------------------------
// Searching for markers
// ---------------------------------------------------------------------------

/// Earliest occurrence of any of `tags[k..]` in `buf`: its index and which
/// marker it is. On a tie the marker listed first wins.
pub open spec fn earliest_from(buf: Seq<char>, tags: Seq<Seq<char>>, k: int) -> Option<(int, int)>
    decreases tags.len() - k,
{
    if k < 0 || k >= tags.len() {
        None
    } else {
        let later = earliest_from(buf, tags, k + 1);
        match find_first(buf, tags[k]) {
            None => later,
            Some(i) => match later {
                None => Some((i, k)),
                Some((j, kj)) => if i <= j {
                    Some((i, k))
                } else {
                    Some((j, kj))
                },
            },
        }
    }
}

pub open spec fn earliest(buf: Seq<char>, tags: Seq<Seq<char>>) -> Option<(int, int)> {
    earliest_from(buf, tags, 0)
}

/// The last `l` characters of `buf` are a non-empty proper prefix of `tag`.
pub open spec fn is_partial(buf: Seq<char>, tag: Seq<char>, l: int) -> bool {
    &&& 0 < l
    &&& l < tag.len()
    &&& l <= buf.len()
    &&& suffix_of(buf, l) == tag.take(l)
}

/// Largest `l' <= l` such that `is_partial(buf, tag, l')`, or 0.
pub open spec fn partial_upto(buf: Seq<char>, tag: Seq<char>, l: int) -> nat
    decreases l,
{
    if l <= 0 {
        0
    } else if is_partial(buf, tag, l) {
        l as nat
    } else {
        partial_upto(buf, tag, l - 1)
    }
}

/// Longest suffix of `buf` that is a non-empty proper prefix of some of
/// `tags[k..]`, in characters.
pub open spec fn partial_from(buf: Seq<char>, tags: Seq<Seq<char>>, k: int) -> nat
    decreases tags.len() - k,
{
    if k < 0 || k >= tags.len() {
        0
    } else {
        let here = partial_upto(buf, tags[k], buf.len() as int);
        let later = partial_from(buf, tags, k + 1);
        if here >= later {
            here
        } else {
            later
        }
    }
}

/// Length, in characters, of the longest suffix of `buf` that could still
/// grow into one of `tags`.
pub open spec fn partial_len(buf: Seq<char>, tags: Seq<Seq<char>>) -> nat {
    partial_from(buf, tags, 0)
}

proof fn lemma_earliest_from(buf: Seq<char>, tags: Seq<Seq<char>>, k: int)
    requires
        0 <= k,
    ensures
        earliest_from(buf, tags, k) matches Some((i, j)) ==> {
            &&& k <= j < tags.len()
            &&& find_first(buf, tags[j]) == Some(i)
            &&& occurs_at(buf, tags[j], i)
        },
        earliest_from(buf, tags, k) is None ==> forall|j: int|
            k <= j < tags.len() ==> find_first(buf, #[trigger] tags[j]) is None,
    decreases tags.len() - k,
{
    if k < tags.len() {
        lemma_earliest_from(buf, tags, k + 1);
        lemma_find_first(buf, tags[k]);
        if let Some((i, j)) = earliest_from(buf, tags, k) {
            lemma_find_first(buf, tags[j]);
        }
    }
}

proof fn lemma_partial_upto(buf: Seq<char>, tag: Seq<char>, l: int)
    ensures
        partial_upto(buf, tag, l) <= (if l < 0 { 0 } else { l }),
        partial_upto(buf, tag, l) > 0 ==> is_partial(buf, tag, partial_upto(buf, tag, l) as int),
        forall|m: int| partial_upto(buf, tag, l) < m <= l ==> !is_partial(buf, tag, m),
    decreases l,
{
    if l > 0 && !is_partial(buf, tag, l) {
        lemma_partial_upto(buf, tag, l - 1);
    }
}

proof fn lemma_partial_from(buf: Seq<char>, tags: Seq<Seq<char>>, k: int)
    requires
        0 <= k,
    ensures
        partial_from(buf, tags, k) <= buf.len(),
        partial_from(buf, tags, k) > 0 ==> exists|j: int|
            k <= j < tags.len() && is_partial(buf, #[trigger] tags[j], partial_from(buf, tags, k) as int),
    decreases tags.len() - k,
{
    if k < tags.len() {
        lemma_partial_from(buf, tags, k + 1);
        lemma_partial_upto(buf, tags[k], buf.len() as int);
    }
}

// ---------------------------------------------------------------------------
// The parser's model and one step of it
// ---------------------------------------------------------------------------

/// What the parser holds between chunks.
pub ghost struct ParserModel {
    pub buffer: Seq<char>,
    pub in_think: bool,
    pub hidden: Option<HiddenClose>,
    pub boundary: bool,
}

/// A routed piece of text.
pub ghost enum EventModel {
    Token(Seq<char>),
    Reasoning(Seq<char>),
}

pub open spec fn token_before(buf: Seq<char>, i: int) -> Seq<EventModel> {
    if i > 0 {
        seq![EventModel::Token(buf.take(i))]
    } else {
        seq![]
    }
}

pub open spec fn reasoning_before(buf: Seq<char>, i: int) -> Seq<EventModel> {
    if i > 0 {
        seq![EventModel::Reasoning(buf.take(i))]
    } else {
        seq![]
    }
}

/// Index part of a found marker.
pub open spec fn pos_of(found: Option<(int, int)>) -> int {
    match found {
        Some((i, k)) => i,
        None => -1,
    }
}

/// One pass of the routing loop: the next state, the events it emits, and
/// whether the loop goes on.
pub open spec fn step(m: ParserModel) -> (ParserModel, Seq<EventModel>, bool) {
    let buf = m.buffer;
    if m.boundary {
        (ParserModel { buffer: seq![], ..m }, seq![], false)
    } else if m.hidden is Some {
        let close = m.hidden->0.marker();
        match find_first(buf, close) {
            Some(i) => (
                ParserModel { buffer: buf.skip(i + close.len()), hidden: None, ..m },
                seq![],
                true,
            ),
            None => {
                let keep = partial_len(buf, seq![close]);
                (ParserModel { buffer: suffix_of(buf, keep as int), ..m }, seq![], false)
            },
        }
    } else if m.in_think {
        match earliest(buf, close_tags()) {
            Some((i, k)) => (
                ParserModel { buffer: buf.skip(i + close_tags()[k].len()), in_think: false, ..m },
                reasoning_before(buf, i),
                true,
            ),
            None => {
                let keep = partial_len(buf, close_tags());
                (
                    ParserModel { buffer: suffix_of(buf, keep as int), ..m },
                    reasoning_before(buf, buf.len() - keep),
                    false,
                )
            },
        }
    } else {
        let boundary = earliest(buf, boundary_tags());
        let close = earliest(buf, close_tags());
        let open = earliest(buf, open_tags());
        let tool = earliest(buf, tool_open_tags());
        if boundary is Some {
            let (bi, bk) = boundary->0;
            (ParserModel { buffer: seq![], boundary: true, ..m }, token_before(buf, bi), false)
        } else if close is Some && (open is None || pos_of(close) < pos_of(open)) {
            let (ci, ck) = close->0;
            (
                ParserModel { buffer: buf.skip(ci + close_tags()[ck].len()), ..m },
                reasoning_before(buf, ci),
                true,
            )
        } else if open is Some && !(tool is Some && pos_of(tool) < pos_of(open)) {
            let (oi, ok) = open->0;
            (
                ParserModel { buffer: buf.skip(oi + open_tags()[ok].len()), in_think: true, ..m },
                token_before(buf, oi),
                true,
            )
        } else if tool is Some {
            let (ti, tk) = tool->0;
            (
                ParserModel {
                    buffer: buf.skip(ti + tool_open_tags()[tk].len()),
                    hidden: Some(tool_close_for(tk)),
                    ..m
                },
                token_before(buf, ti),
                true,
            )
        } else {
            let keep = partial_len(buf, all_visible_tags());
            (
                ParserModel { buffer: suffix_of(buf, keep as int), ..m },
                token_before(buf, buf.len() - keep),
                false,
            )
        }
    }
}

/// The routing loop run to completion on the model `m`.
pub open spec fn run(m: ParserModel) -> (ParserModel, Seq<EventModel>)
    decreases m.buffer.len(),
{
    let (next, events, go_on) = step(m);
    if go_on && next.buffer.len() < m.buffer.len() {
        let (last, more) = run(next);
        (last, events + more)
    } else {
        (next, events)
    }
}

/// A step that goes on always shortens the buffer, so `run` unfolds one step.
pub proof fn lemma_step_shrinks(m: ParserModel)
    ensures
        step(m).2 ==> step(m).0.buffer.len() < m.buffer.len(),
        !step(m).2 ==> step(m).0.buffer.len() <= m.buffer.len(),
{
    lemma_marker_lengths();
    let buf = m.buffer;
    if m.boundary {
    } else if m.hidden is Some {
        let close = m.hidden->0.marker();
        lemma_find_first(buf, close);
        lemma_partial_from(buf, seq![close], 0);
    } else if m.in_think {
        lemma_earliest_from(buf, close_tags(), 0);
        lemma_partial_from(buf, close_tags(), 0);
    } else {
        lemma_earliest_from(buf, boundary_tags(), 0);
        lemma_earliest_from(buf, close_tags(), 0);
        lemma_earliest_from(buf, open_tags(), 0);
        lemma_earliest_from(buf, tool_open_tags(), 0);
        lemma_partial_from(buf, all_visible_tags(), 0);
    }
}


// ---------------------------------------------------------------------------
// Properties of the routing loop
// ---------------------------------------------------------------------------

/// After routing, the buffer holds nothing but the beginning of a marker
/// that the current mode still waits for (or nothing at all, once a turn
/// boundary was seen).
pub open spec fn holds_only_partial(m: ParserModel) -> bool {
    if m.boundary {
        m.buffer.len() == 0
    } else if m.hidden is Some {
        m.buffer.len() == 0 || is_partial(m.buffer, m.hidden->0.marker(), m.buffer.len() as int)
    } else if m.in_think {
        m.buffer.len() == 0 || exists|k: int|
            0 <= k < close_tags().len() && is_partial(
                m.buffer,
                #[trigger] close_tags()[k],
                m.buffer.len() as int,
            )
    } else {
        m.buffer.len() == 0 || exists|k: int|
            0 <= k < all_visible_tags().len() && is_partial(
                m.buffer,
                #[trigger] all_visible_tags()[k],
                m.buffer.len() as int,
            )
    }
}

/// Every routed piece of text is non-empty.
pub open spec fn events_nonempty(ev: Seq<EventModel>) -> bool {
    forall|i: int|
        0 <= i < ev.len() ==> match #[trigger] ev[i] {
            EventModel::Token(t) => t.len() > 0,
            EventModel::Reasoning(t) => t.len() > 0,
        }
}

proof fn lemma_keep_suffix(buf: Seq<char>, tags: Seq<Seq<char>>)
    ensures
        partial_len(buf, tags) <= buf.len(),
        ({
            let keep = partial_len(buf, tags) as int;
            let rest = suffix_of(buf, keep);
            rest.len() == keep && (keep == 0 || exists|k: int|
                0 <= k < tags.len() && is_partial(rest, #[trigger] tags[k], keep))
        }),
{
    lemma_partial_from(buf, tags, 0);
    let keep = partial_len(buf, tags) as int;
    let rest = suffix_of(buf, keep);
    if keep > 0 {
        let k = choose|k: int| 0 <= k < tags.len() && is_partial(buf, #[trigger] tags[k], keep);
        assert(suffix_of(rest, keep) =~= rest);
        assert(is_partial(rest, tags[k], keep));
    }
}

proof fn lemma_step_properties(m: ParserModel)
    ensures
        events_nonempty(step(m).1),
        !step(m).2 ==> holds_only_partial(step(m).0),
{
    lemma_marker_lengths();
    let buf = m.buffer;
    if m.boundary {
    } else if m.hidden is Some {
        let close = m.hidden->0.marker();
        lemma_find_first(buf, close);
        let single = seq![close];
        lemma_keep_suffix(buf, single);
        if find_first(buf, close) is None {
            let keep = partial_len(buf, single) as int;
            if keep > 0 {
                let k = choose|k: int|
                    0 <= k < single.len() && is_partial(suffix_of(buf, keep), #[trigger] single[k], keep);
                assert(k == 0);
            }
        }
    } else if m.in_think {
        lemma_earliest_from(buf, close_tags(), 0);
        lemma_keep_suffix(buf, close_tags());
    } else {
        lemma_earliest_from(buf, boundary_tags(), 0);
        lemma_earliest_from(buf, close_tags(), 0);
        lemma_earliest_from(buf, open_tags(), 0);
        lemma_earliest_from(buf, tool_open_tags(), 0);
        lemma_keep_suffix(buf, all_visible_tags());
    }
}

/// Running the routing loop emits only non-empty pieces and ends holding at
/// most the beginning of a marker.
pub proof fn lemma_run_properties(m: ParserModel)
    ensures
        events_nonempty(run(m).1),
        holds_only_partial(run(m).0),
    decreases m.buffer.len(),
{
    lemma_step_shrinks(m);
    lemma_step_properties(m);
    let (next, events, go_on) = step(m);
    if go_on && next.buffer.len() < m.buffer.len() {
        lemma_run_properties(next);
        let more = run(next).1;
        assert forall|i: int| 0 <= i < (events + more).len() implies match #[trigger] (events
            + more)[i] {
            EventModel::Token(t) => t.len() > 0,
            EventModel::Reasoning(t) => t.len() > 0,
        } by {
            if i < events.len() {
                assert((events + more)[i] == events[i]);
            } else {
                assert((events + more)[i] == more[i - events.len()]);
            }
        }
    }
}

/// Once a turn boundary was seen, routing only discards the buffer.
pub proof fn lemma_run_after_boundary(m: ParserModel)
    requires
        m.boundary,
    ensures
        run(m) == (ParserModel { buffer: seq![], ..m }, Seq::<EventModel>::empty()),
{
}

/// No marker occurs in text that holds no `<`.
proof fn lemma_no_lt_no_marker(buf: Seq<char>, tags: Seq<Seq<char>>)
    requires
        !buf.contains('<'),
        forall|k: int| 0 <= k < tags.len() ==> (#[trigger] tags[k]).len() > 0 && tags[k][0] == '<',
    ensures
        earliest(buf, tags) is None,
        partial_len(buf, tags) == 0,
{
    assert forall|k: int| 0 <= k < tags.len() implies find_first(buf, #[trigger] tags[k]) is None by {
        lemma_find_first(buf, tags[k]);
        if let Some(i) = find_first(buf, tags[k]) {
            assert(buf.subrange(i, i + tags[k].len())[0] == buf[i]);
            assert(buf.contains(buf[i]));
        }
    }
    lemma_earliest_none(buf, tags, 0);
    lemma_partial_zero(buf, tags, 0);
}

proof fn lemma_earliest_none(buf: Seq<char>, tags: Seq<Seq<char>>, k: int)
    requires
        0 <= k,
        forall|j: int| 0 <= j < tags.len() ==> find_first(buf, #[trigger] tags[j]) is None,
    ensures
        earliest_from(buf, tags, k) is None,
    decreases tags.len() - k,
{
    if k < tags.len() {
        lemma_earliest_none(buf, tags, k + 1);
    }
}

proof fn lemma_partial_zero(buf: Seq<char>, tags: Seq<Seq<char>>, k: int)
    requires
        0 <= k,
        !buf.contains('<'),
        forall|j: int| 0 <= j < tags.len() ==> (#[trigger] tags[j]).len() > 0 && tags[j][0] == '<',
    ensures
        partial_from(buf, tags, k) == 0,
    decreases tags.len() - k,
{
    if k < tags.len() {
        lemma_partial_zero(buf, tags, k + 1);
        lemma_partial_upto(buf, tags[k], buf.len() as int);
        let l = partial_upto(buf, tags[k], buf.len() as int) as int;
        if l > 0 {
            assert(suffix_of(buf, l)[0] == tags[k].take(l)[0]);
            assert(buf[buf.len() - l] == '<');
            assert(buf.contains(buf[buf.len() - l]));
        }
    }
}

proof fn lemma_markers_start_with_lt()
    ensures
        forall|k: int|
            0 <= k < all_visible_tags().len() ==> (#[trigger] all_visible_tags()[k]).len() > 0
                && all_visible_tags()[k][0] == '<',
        forall|k: int|
            0 <= k < boundary_tags().len() ==> (#[trigger] boundary_tags()[k]).len() > 0
                && boundary_tags()[k][0] == '<',
        forall|k: int|
            0 <= k < close_tags().len() ==> (#[trigger] close_tags()[k]).len() > 0
                && close_tags()[k][0] == '<',
        forall|k: int|
            0 <= k < open_tags().len() ==> (#[trigger] open_tags()[k]).len() > 0
                && open_tags()[k][0] == '<',
        forall|k: int|
            0 <= k < tool_open_tags().len() ==> (#[trigger] tool_open_tags()[k]).len() > 0
                && tool_open_tags()[k][0] == '<',
{
    lemma_marker_lengths();
    reveal_strlit("<think>");
    reveal_strlit("<|think|>");
    reveal_strlit("<|channel>thought");
    reveal_strlit("</think>");
    reveal_strlit("<|/think|>");
    reveal_strlit("<channel|>");
    reveal_strlit("<turn|>");
    reveal_strlit("<|turn>");
    reveal_strlit("<end_of_turn>");
    reveal_strlit("<start_of_turn>");
    reveal_strlit("<|im_end|>");
    reveal_strlit("<|im_start|>");
    reveal_strlit("<|eot_id|>");
    reveal_strlit("<|start_header_id|>");
    reveal_strlit("<tool_call>");
    reveal_strlit("<div class=\"tool_code\">");
    reveal_strlit("<div class='tool_code'>");
    let all = all_visible_tags();
    assert forall|k: int| 0 <= k < all.len() implies (#[trigger] all[k]).len() > 0 && all[k][0]
        == '<' by {
        if k < 3 {
            assert(all[k] == open_tags()[k]);
        } else if k < 6 {
            assert(all[k] == close_tags()[k - 3]);
        } else if k < 14 {
            assert(all[k] == boundary_tags()[k - 6]);
        } else {
            assert(all[k] == tool_open_tags()[k - 14]);
        }
    }
}

/// Visible text that holds no `<` streams through unchanged: it is emitted
/// whole as one token and nothing is held back.
pub proof fn lemma_plain_text_passes_through(m: ParserModel)
    requires
        !m.boundary,
        !m.in_think,
        m.hidden is None,
        !m.buffer.contains('<'),
    ensures
        run(m) == (ParserModel { buffer: seq![], ..m }, token_before(m.buffer, m.buffer.len() as int)),
{
    lemma_markers_start_with_lt();
    let buf = m.buffer;
    lemma_no_lt_no_marker(buf, boundary_tags());
    lemma_no_lt_no_marker(buf, close_tags());
    lemma_no_lt_no_marker(buf, open_tags());
    lemma_no_lt_no_marker(buf, tool_open_tags());
    lemma_no_lt_no_marker(buf, all_visible_tags());
    assert(suffix_of(buf, 0) =~= seq![]);
}

/// End of stream: whatever is still buffered is emitted in the current mode,
/// except inside hidden tool-call markup, where it is dropped.
pub open spec fn flush(m: ParserModel) -> (ParserModel, Seq<EventModel>) {
    let ev = if m.buffer.len() == 0 || m.hidden is Some {
        seq![]
    } else if m.in_think {
        seq![EventModel::Reasoning(m.buffer)]
    } else {
        seq![EventModel::Token(m.buffer)]
    };
    (ParserModel { buffer: seq![], ..m }, ev)
}

/// The views of a list of string slices.
pub open spec fn strs_view(v: Seq<&str>) -> Seq<Seq<char>> {
    v.map_values(|s: &str| s@)
}

// ---------------------------------------------------------------------------
// Executable parser
// ---------------------------------------------------------------------------

/// A routed piece of streamed text.
#[derive(Clone, Debug, PartialEq, Eq)]
pub enum ContentEvent {
    /// Text shown to the user.
    Token(String),
    /// Text of a reasoning block.
    ReasoningDelta(String),
}

impl View for ContentEvent {
    type V = EventModel;

    open spec fn view(&self) -> EventModel {
        match self {
            ContentEvent::Token(s) => EventModel::Token(s@),
            ContentEvent::ReasoningDelta(s) => EventModel::Reasoning(s@),
        }
    }
}

pub open spec fn events_view(v: Seq<ContentEvent>) -> Seq<EventModel> {
    v.map_values(|e: ContentEvent| e@)
}

pub open spec fn tags_match(v: Seq<Vec<char>>, t: Seq<Seq<char>>) -> bool {
    v.len() == t.len() && forall|i: int| 0 <= i < v.len() ==> (#[trigger] v[i])@ == t[i]
}

fn open_tags_exec() -> (v: Vec<Vec<char>>)
    ensures
        tags_match(v@, open_tags()),
{
    let v = vec![chars_of("<think>"), chars_of("<|think|>"), chars_of("<|channel>thought")];
    assert(tags_match(v@, open_tags()));
    v
}

fn close_tags_exec() -> (v: Vec<Vec<char>>)
    ensures
        tags_match(v@, close_tags()),
{
    let v = vec![chars_of("</think>"), chars_of("<|/think|>"), chars_of("<channel|>")];
    assert(tags_match(v@, close_tags()));
    v
}

fn boundary_tags_exec() -> (v: Vec<Vec<char>>)
    ensures
        tags_match(v@, boundary_tags()),
{
    let v = vec![
        chars_of("<turn|>"),
        chars_of("<|turn>"),
        chars_of("<end_of_turn>"),
        chars_of("<start_of_turn>"),
        chars_of("<|im_end|>"),
        chars_of("<|im_start|>"),
        chars_of("<|eot_id|>"),
        chars_of("<|start_header_id|>"),
    ];
    assert(tags_match(v@, boundary_tags()));
    v
}

fn tool_open_tags_exec() -> (v: Vec<Vec<char>>)
    ensures
        tags_match(v@, tool_open_tags()),
{
    let v = vec![
        chars_of("<tool_call>"),
        chars_of("<div class=\"tool_code\">"),
        chars_of("<div class='tool_code'>"),
    ];
    assert(tags_match(v@, tool_open_tags()));
    v
}

fn all_visible_tags_exec() -> (v: Vec<Vec<char>>)
    ensures
        tags_match(v@, all_visible_tags()),
{
    let mut v = open_tags_exec();
    let mut c = close_tags_exec();
    let mut b = boundary_tags_exec();
    let mut t = tool_open_tags_exec();
    v.append(&mut c);
    v.append(&mut b);
    v.append(&mut t);
    assert(tags_match(v@, all_visible_tags())) by {
        let all = all_visible_tags();
        assert forall|i: int| 0 <= i < v@.len() implies (#[trigger] v@[i])@ == all[i] by {
            if i < 3 {
            } else if i < 6 {
            } else if i < 14 {
            } else {
            }
        }
    }
    v
}

fn earliest_exec(buf: &[char], tags: &Vec<Vec<char>>, Ghost(spec_tags): Ghost<Seq<Seq<char>>>) -> (r: Option<(usize, usize)>)
    requires
        tags_match(tags@, spec_tags),
    ensures
        match r {
            Some((i, k)) => earliest(buf@, spec_tags) == Some((i as int, k as int)),
            None => earliest(buf@, spec_tags) is None,
        },
{
    let mut acc: Option<(usize, usize)> = None;
    let mut k: usize = tags.len();
    while k > 0
        invariant
            k <= tags.len(),
            tags_match(tags@, spec_tags),
            match acc {
                Some((i, j)) => earliest_from(buf@, spec_tags, k as int) == Some((i as int, j as int)),
                None => earliest_from(buf@, spec_tags, k as int) is None,
            },
        decreases k,
    {
        k -= 1;
        proof {
            lemma_earliest_from(buf@, spec_tags, k + 1);
        }
        let here = find_chars(buf, &tags[k]);
        assert(tags@[k as int]@ == spec_tags[k as int]);
        acc = match here {
            None => acc,
            Some(i) => match acc {
                None => Some((i, k)),
                Some((j, kj)) => if i <= j {
                    Some((i, k))
                } else {
                    Some((j, kj))
                },
            },
        };
    }
    acc
}

fn is_partial_exec(buf: &[char], tag: &[char], l: usize) -> (b: bool)
    ensures
        b == is_partial(buf@, tag@, l as int),
{
    if l == 0 || l >= tag.len() || l > buf.len() {
        return false;
    }
    let start = buf.len() - l;
    let mut j: usize = 0;
    while j < l
        invariant
            j <= l,
            0 < l < tag.len(),
            l <= buf.len(),
            start == buf.len() - l,
            forall|m: int| 0 <= m < j ==> buf@[start + m] == tag@[m],
        decreases l - j,
    {
        if buf[start + j] != tag[j] {
            assert(suffix_of(buf@, l as int)[j as int] != tag@.take(l as int)[j as int]);
            return false;
        }
        j += 1;
    }
    assert(suffix_of(buf@, l as int) =~= tag@.take(l as int));
    true
}

fn partial_for_tag_exec(buf: &[char], tag: &[char]) -> (n: usize)
    ensures
        n == partial_upto(buf@, tag@, buf@.len() as int),
{
    let mut l: usize = buf.len();
    while l > 0
        invariant
            l <= buf.len(),
            partial_upto(buf@, tag@, buf@.len() as int) == partial_upto(buf@, tag@, l as int),
        decreases l,
    {
        if is_partial_exec(buf, tag, l) {
            return l;
        }
        l -= 1;
    }
    0
}

fn partial_exec(buf: &[char], tags: &Vec<Vec<char>>, Ghost(spec_tags): Ghost<Seq<Seq<char>>>) -> (n: usize)
    requires
        tags_match(tags@, spec_tags),
    ensures
        n == partial_len(buf@, spec_tags),
{
    let mut acc: usize = 0;
    let mut k: usize = tags.len();
    while k > 0
        invariant
            k <= tags.len(),
            tags_match(tags@, spec_tags),
            acc == partial_from(buf@, spec_tags, k as int),
        decreases k,
    {
        k -= 1;
        proof {
            lemma_partial_from(buf@, spec_tags, k + 1);
            lemma_partial_upto(buf@, spec_tags[k as int], buf@.len() as int);
        }
        let here = partial_for_tag_exec(buf, &tags[k]);
        if here >= acc {
            acc = here;
        }
    }
    acc
}

/// Length in bytes of the longest suffix of `buffer` that is a non-empty,
/// strictly shorter prefix of one of `candidates`: the tail that must be held
/// back because it may still grow into a marker.
pub fn longest_partial_suffix(buffer: &str, candidates: &[&str]) -> (n: usize)
    ensures
        n == utf8_len(suffix_of(buffer@, partial_len(buffer@, strs_view(candidates@)) as int)),
        n <= utf8_len(buffer@),
{
    let buf = chars_of(buffer);
    let mut tags: Vec<Vec<char>> = Vec::new();
    let mut i: usize = 0;
    while i < candidates.len()
        invariant
            i <= candidates.len(),
            tags_match(tags@, strs_view(candidates@).take(i as int)),
        decreases candidates.len() - i,
    {
        tags.push(chars_of(candidates[i]));
        i += 1;
        assert(tags_match(tags@, strs_view(candidates@).take(i as int)));
    }
    assert(strs_view(candidates@).take(i as int) =~= strs_view(candidates@));
    let keep = partial_exec(&buf, &tags, Ghost(strs_view(candidates@)));
    proof {
        lemma_partial_from(buf@, strs_view(candidates@), 0);
    }
    let bytes = buffer.as_bytes();
    let total = bytes.len();
    let tail = slice_chars(&buf, buf.len() - keep, buf.len());
    proof {
        assert(tail@ =~= buf@.skip(buf.len() - keep));
        lemma_utf8_len_split(buf@, buf.len() - keep);
        assert(total == utf8_len(buffer@));
    }
    utf8_len_exec(&tail)
}

/// Routes streamed model text into visible tokens and reasoning deltas.
#[derive(Clone, Debug)]
pub struct ContentParser {
    buffer: Vec<char>,
    in_think: bool,
    hidden_close: Option<HiddenClose>,
    hit_generation_boundary: bool,
}

impl View for ContentParser {
    type V = ParserModel;

    closed spec fn view(&self) -> ParserModel {
        ParserModel {
            buffer: self.buffer@,
            in_think: self.in_think,
            hidden: self.hidden_close,
            boundary: self.hit_generation_boundary,
        }
    }
}

impl ContentParser {
    /// A parser in visible-text mode with nothing buffered.
    pub fn new() -> (p: Self)
        ensures
            p@ == (ParserModel { buffer: seq![], in_think: false, hidden: None, boundary: false }),
    {
        ContentParser {
            buffer: Vec::new(),
            in_think: false,
            hidden_close: None,
            hit_generation_boundary: false,
        }
    }

    /// A parser in visible-text mode whose buffer holds `text`, not yet routed.
    pub fn with_buffer(text: &str) -> (p: Self)
        ensures
            p@ == (ParserModel { buffer: text@, in_think: false, hidden: None, boundary: false }),
    {
        ContentParser {
            buffer: chars_of(text),
            in_think: false,
            hidden_close: None,
            hit_generation_boundary: false,
        }
    }

    /// Inside a reasoning block?
    pub fn in_think(&self) -> (b: bool)
        ensures
            b == self@.in_think,
    {
        self.in_think
    }

    /// The closing marker awaited while tool-call markup is hidden.
    pub fn hidden_close_tag(&self) -> (t: Option<&'static str>)
        ensures
            t.is_some() == self@.hidden.is_some(),
            t matches Some(s) ==> s@ == self@.hidden->0.marker(),
    {
        match &self.hidden_close {
            Some(h) => Some(h.as_str()),
            None => None,
        }
    }

    /// Has a chat-turn boundary been seen?
    pub fn hit_generation_boundary(&self) -> (b: bool)
        ensures
            b == self@.boundary,
    {
        self.hit_generation_boundary
    }

    /// The text held back for the next chunk.
    pub fn buffered(&self) -> (s: String)
        ensures
            s@ == self@.buffer,
    {
        string_of(&self.buffer)
    }

    fn step_exec(&mut self, events: &mut Vec<ContentEvent>) -> (go_on: bool)
        ensures
            final(self)@ == step(old(self)@).0,
            events_view(final(events)@) == events_view(old(events)@) + step(old(self)@).1,
            go_on == step(old(self)@).2,
    {
        let ghost m = self@;
        let ghost ev0 = events@;
        proof {
            lemma_marker_lengths();
        }
        if self.hit_generation_boundary {
            self.buffer = Vec::new();
            assert(events_view(events@) =~= events_view(ev0) + step(m).1);
            return false;
        }
        if let Some(h) = self.hidden_close {
            let close = chars_of(h.as_str());
            match find_chars(&self.buffer, &close) {
                Some(i) => {
                    proof {
                        lemma_find_first(m.buffer, close@);
                        assert(occurs_at(self.buffer@, close@, i as int));
                    }
                    let len = self.buffer.len();
                    self.buffer = slice_chars(&self.buffer, i + close.len(), len);
                    self.hidden_close = None;
                    assert(events_view(events@) =~= events_view(ev0) + step(m).1);
                    return true;
                },
                None => {
                    let ghost single = seq![close@];
                    let tags = vec![close];
                    assert(tags_match(tags@, single));
                    let keep = partial_exec(&self.buffer, &tags, Ghost(single));
                    proof {
                        lemma_partial_from(m.buffer, single, 0);
                    }
                    self.buffer = slice_chars(&self.buffer, self.buffer.len() - keep, self.buffer.len());
                    assert(events_view(events@) =~= events_view(ev0) + step(m).1);
                    return false;
                },
            }
        }
        if self.in_think {
            let tags = close_tags_exec();
            match earliest_exec(&self.buffer, &tags, Ghost(close_tags())) {
                Some((i, k)) => {
                    proof {
                        lemma_earliest_from(m.buffer, close_tags(), 0);
                        assert(tags@[k as int]@ == close_tags()[k as int]);
                    }
                    if i > 0 {
                        let text = slice_chars(&self.buffer, 0, i);
                        events.push(ContentEvent::ReasoningDelta(string_of(&text)));
                    }
                    let len = self.buffer.len();
                    self.buffer = slice_chars(&self.buffer, i + tags[k].len(), len);
                    self.in_think = false;
                    assert(events_view(events@) =~= events_view(ev0) + step(m).1);
                    return true;
                },
                None => {
                    let keep = partial_exec(&self.buffer, &tags, Ghost(close_tags()));
                    proof {
                        lemma_partial_from(m.buffer, close_tags(), 0);
                    }
                    let len = self.buffer.len();
                    if len - keep > 0 {
                        let text = slice_chars(&self.buffer, 0, len - keep);
                        events.push(ContentEvent::ReasoningDelta(string_of(&text)));
                    }
                    self.buffer = slice_chars(&self.buffer, len - keep, len);
                    assert(events_view(events@) =~= events_view(ev0) + step(m).1);
                    return false;
                },
            }
        }
        let btags = boundary_tags_exec();
        let ctags = close_tags_exec();
        let otags = open_tags_exec();
        let ttags = tool_open_tags_exec();
        let boundary = earliest_exec(&self.buffer, &btags, Ghost(boundary_tags()));
        let close = earliest_exec(&self.buffer, &ctags, Ghost(close_tags()));
        let open = earliest_exec(&self.buffer, &otags, Ghost(open_tags()));
        let tool = earliest_exec(&self.buffer, &ttags, Ghost(tool_open_tags()));
        proof {
            lemma_earliest_from(m.buffer, boundary_tags(), 0);
            lemma_earliest_from(m.buffer, close_tags(), 0);
            lemma_earliest_from(m.buffer, open_tags(), 0);
            lemma_earliest_from(m.buffer, tool_open_tags(), 0);
            if let Some((ci, ck)) = close {
                assert(ctags@[ck as int]@ == close_tags()[ck as int]);
            }
            if let Some((oi, ok)) = open {
                assert(otags@[ok as int]@ == open_tags()[ok as int]);
            }
            if let Some((ti, tk)) = tool {
                assert(ttags@[tk as int]@ == tool_open_tags()[tk as int]);
            }
        }
        if let Some((bi, _bk)) = boundary {
            if bi > 0 {
                let text = slice_chars(&self.buffer, 0, bi);
                events.push(ContentEvent::Token(string_of(&text)));
            }
            self.buffer = Vec::new();
            self.hit_generation_boundary = true;
            assert(events_view(events@) =~= events_view(ev0) + step(m).1);
            return false;
        }
        if let Some((ci, ck)) = close {
            let close_first = match open {
                None => true,
                Some((oi, _)) => ci < oi,
            };
            if close_first {
                if ci > 0 {
                    let text = slice_chars(&self.buffer, 0, ci);
                    events.push(ContentEvent::ReasoningDelta(string_of(&text)));
                }
                let len = self.buffer.len();
                self.buffer = slice_chars(&self.buffer, ci + ctags[ck].len(), len);
                assert(events_view(events@) =~= events_view(ev0) + step(m).1);
                return true;
            }
        }
        if let Some((oi, ok)) = open {
            let tool_first = match tool {
                None => false,
                Some((ti, _)) => ti < oi,
            };
            if !tool_first {
                if oi > 0 {
                    let text = slice_chars(&self.buffer, 0, oi);
                    events.push(ContentEvent::Token(string_of(&text)));
                }
                let len = self.buffer.len();
                self.buffer = slice_chars(&self.buffer, oi + otags[ok].len(), len);
                self.in_think = true;
                assert(events_view(events@) =~= events_view(ev0) + step(m).1);
                return true;
            }
        }
        if let Some((ti, tk)) = tool {
            if ti > 0 {
                let text = slice_chars(&self.buffer, 0, ti);
                events.push(ContentEvent::Token(string_of(&text)));
            }
            let len = self.buffer.len();
            self.buffer = slice_chars(&self.buffer, ti + ttags[tk].len(), len);
            self.hidden_close = Some(if tk == 0 { HiddenClose::ToolCall } else { HiddenClose::Div });
            assert(events_view(events@) =~= events_view(ev0) + step(m).1);
            return true;
        }
        let atags = all_visible_tags_exec();
        let keep = partial_exec(&self.buffer, &atags, Ghost(all_visible_tags()));
        proof {
            lemma_partial_from(m.buffer, all_visible_tags(), 0);
        }
        let len = self.buffer.len();
        if len - keep > 0 {
            let text = slice_chars(&self.buffer, 0, len - keep);
            events.push(ContentEvent::Token(string_of(&text)));
        }
        self.buffer = slice_chars(&self.buffer, len - keep, len);
        assert(events_view(events@) =~= events_view(ev0) + step(m).1);
        false
    }

    /// Route everything buffered: emit what is certain and hold back only a
    /// possible partial marker.
    pub fn emit_parsed_content(&mut self) -> (events: Vec<ContentEvent>)
        ensures
            final(self)@ == run(old(self)@).0,
            events_view(events@) == run(old(self)@).1,
            events_nonempty(events_view(events@)),
            holds_only_partial(final(self)@),
    {
        proof {
            lemma_run_properties(self@);
        }
        let mut events: Vec<ContentEvent> = Vec::new();
        let ghost start = self@;
        loop
            invariant
                start == old(self)@,
                events_nonempty(run(start).1),
                holds_only_partial(run(start).0),
                run(start).0 == run(self@).0,
                run(start).1 == events_view(events@) + run(self@).1,
            decreases self@.buffer.len(),
        {
            let ghost before = self@;
            let ghost ev_before = events@;
            proof {
                lemma_step_shrinks(before);
            }
            let go_on = self.step_exec(&mut events);
            if !go_on {
                assert(run(before) == (step(before).0, step(before).1));
                assert(events_view(events@) =~= events_view(ev_before) + step(before).1);
                return events;
            }
            assert(run(before) == (run(self@).0, step(before).1 + run(self@).1));
            assert(events_view(events@) =~= events_view(ev_before) + step(before).1);
        }
    }

    /// Append a streamed chunk and route it.
    pub fn push(&mut self, chunk: &str) -> (events: Vec<ContentEvent>)
        ensures
            final(self)@ == run(ParserModel { buffer: old(self)@.buffer + chunk@, ..old(self)@ }).0,
            events_view(events@) == run(ParserModel { buffer: old(self)@.buffer + chunk@, ..old(self)@ }).1,
    {
        let extra = chars_of(chunk);
        let mut i: usize = 0;
        let ghost b0 = self.buffer@;
        while i < extra.len()
            invariant
                i <= extra.len(),
                self.buffer@ == b0 + extra@.take(i as int),
                self.in_think == old(self).in_think,
                self.hidden_close == old(self).hidden_close,
                self.hit_generation_boundary == old(self).hit_generation_boundary,
            decreases extra.len() - i,
        {
            self.buffer.push(extra[i]);
            i += 1;
            assert(b0 + extra@.take(i as int) =~= (b0 + extra@.take(i - 1)).push(extra@[i - 1]));
        }
        assert(extra@.take(extra.len() as int) =~= extra@);
        self.emit_parsed_content()
    }

    /// End of stream: emit what is still buffered in the current mode (a
    /// reasoning delta inside a reasoning block, a visible token otherwise;
    /// nothing inside hidden tool-call markup) and clear the buffer.
    pub fn finish(&mut self) -> (events: Vec<ContentEvent>)
        ensures
            final(self)@ == flush(old(self)@).0,
            events_view(events@) == flush(old(self)@).1,
    {
        let mut events: Vec<ContentEvent> = Vec::new();
        if self.buffer.len() > 0 && self.hidden_close.is_none() {
            let text = string_of(&self.buffer);
            if self.in_think {
                events.push(ContentEvent::ReasoningDelta(text));
            } else {
                events.push(ContentEvent::Token(text));
            }
        }
        self.buffer = Vec::new();
        assert(events_view(events@) =~= flush(old(self)@).1);
        events
    }
}

} // verus!

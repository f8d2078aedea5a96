//! Decoding llama-server's streamed completion (server-sent events).
//!
//! The byte stream is cut into lines; the `data: ` lines carry either the
//! end marker `[DONE]` or a JSON chunk with generated content and, on the
//! last chunk, the stop reason and token counts. The decoder turns those,
//! and the stream's end, a timeout or a cancellation, into the events the
//! chat sees: raw deltas, routed tokens and reasoning, and one final
//! `Done` or `Error`. Waiting, timing and JSON decoding happen outside; the
//! decisions are here.

use vstd::prelude::*;
use crate::engine::streaming::{events_view, flush, run, ContentEvent, ContentParser, EventModel, ParserModel};
use crate::text::{chars_equal, chars_of, slice_chars, split_chars, split_on, starts_with, starts_with_chars, string_of, trim, trim_chars};

verus! {

broadcast use vstd::string::group_string_axioms;

// ---------------------------------------------------------------------------
// Lines
// ---------------------------------------------------------------------------

/// The payload of one line of the stream: a trimmed line that starts with
/// `data: `, without that prefix. Blank lines, comments (`:`) and other
/// fields carry none.
pub open spec fn data_payload(line: Seq<char>) -> Option<Seq<char>> {
    let t = trim(line);
    if t.len() == 0 || t[0] == ':' {
        None
    } else if starts_with(t, "data: "@) {
        Some(t.skip(6))
    } else {
        None
    }
}

/// The payloads of a run of complete lines, in order.
pub open spec fn payloads_of(lines: Seq<Seq<char>>) -> Seq<Seq<char>>
    decreases lines.len(),
{
    if lines.len() == 0 {
        seq![]
    } else {
        let prev = payloads_of(lines.drop_last());
        match data_payload(lines.last()) {
            Some(p) => prev.push(p),
            None => prev,
        }
    }
}

/// Cuts the decoded stream text into lines, keeping an unfinished line for
/// the next chunk.
pub struct SseLines {
    pending: Vec<char>,
}

impl View for SseLines {
    type V = Seq<char>;

    closed spec fn view(&self) -> Seq<char> {
        self.pending@
    }
}

proof fn lemma_payloads_push(lines: Seq<Seq<char>>, line: Seq<char>)
    ensures
        payloads_of(lines.push(line)) == match data_payload(line) {
            Some(p) => payloads_of(lines).push(p),
            None => payloads_of(lines),
        },
{
    assert(lines.push(line).drop_last() =~= lines);
}

/// The payload of one line, if it has one.
fn line_payload(line: &[char]) -> (r: Option<Vec<char>>)
    ensures
        match data_payload(line@) {
            Some(p) => r matches Some(v) && v@ == p,
            None => r is None,
        },
{
    let t = trim_chars(line);
    if t.len() == 0 || t[0] == ':' {
        return None;
    }
    if starts_with_chars(&t, &chars_of("data: ")) {
        proof {
            reveal_strlit("data: ");
        }
        Some(slice_chars(&t, 6, t.len()))
    } else {
        None
    }
}

impl SseLines {
    /// Nothing pending.
    pub fn new() -> (l: Self)
        ensures
            l@ == Seq::<char>::empty(),
    {
        SseLines { pending: Vec::new() }
    }

    /// Add decoded stream text; returns the payloads of the lines it
    /// completes, in order, and keeps the unfinished rest.
    pub fn push_text(&mut self, text: &str) -> (payloads: Vec<String>)
        ensures
            final(self)@ == split_on(old(self)@ + text@, '\n').last(),
            payloads@.map_values(|p: String| p@) == payloads_of(split_on(old(self)@ + text@, '\n').drop_last()),
    {
        let mut all = self.pending.clone();
        let extra = chars_of(text);
        let ghost p0 = self.pending@;
        assert(all@ == p0);
        let mut k: usize = 0;
        while k < extra.len()
            invariant
                k <= extra.len(),
                all@ == p0 + extra@.take(k as int),
            decreases extra.len() - k,
        {
            all.push(extra[k]);
            k += 1;
            assert(all@ =~= p0 + extra@.take(k as int));
        }
        assert(extra@.take(k as int) =~= text@);
        let pieces = split_chars(&all, '\n');
        let ghost ps = pieces@.map_values(|p: Vec<char>| p@);
        proof {
            crate::text::lemma_split_on_len(all@, '\n');
        }
        let mut payloads: Vec<String> = Vec::new();
        let mut i: usize = 0;
        let last = pieces.len() - 1;
        assert(ps.drop_last().take(0) =~= Seq::<Seq<char>>::empty());
        while i < last
            invariant
                last == pieces@.len() - 1,
                i <= last,
                ps == pieces@.map_values(|p: Vec<char>| p@),
                payloads@.map_values(|p: String| p@) == payloads_of(ps.drop_last().take(i as int)),
            decreases last - i,
        {
            proof {
                assert(ps.drop_last().take(i + 1) =~= ps.drop_last().take(i as int).push(ps[i as int]));
                lemma_payloads_push(ps.drop_last().take(i as int), ps[i as int]);
            }
            match line_payload(&pieces[i]) {
                Some(p) => {
                    payloads.push(string_of(&p));
                },
                None => {},
            }
            i += 1;
            assert(payloads@.map_values(|p: String| p@) =~= payloads_of(ps.drop_last().take(i as int)));
        }
        assert(ps.drop_last().take(last as int) =~= ps.drop_last());
        self.pending = pieces[last].clone();
        assert(self.pending@ == ps.last());
        payloads
    }

    /// The unfinished line held for the next chunk.
    pub fn pending(&self) -> (s: String)
        ensures
            s@ == self@,
    {
        string_of(&self.pending)
    }
}

proof fn lemma_split_no_sep(s: Seq<char>, sep: char)
    requires
        !s.contains(sep),
    ensures
        split_on(s, sep) == seq![s],
    decreases s.len(),
{
    if s.len() > 0 {
        assert(!s.drop_last().contains(sep)) by {
            if s.drop_last().contains(sep) {
                let i = choose|i: int| 0 <= i < s.drop_last().len() && s.drop_last()[i] == sep;
                assert(s[i] == sep);
            }
        }
        lemma_split_no_sep(s.drop_last(), sep);
        assert(s.last() != sep) by {
            if s.last() == sep {
                assert(s[s.len() - 1] == sep);
            }
        }
        assert(s.drop_last().push(s.last()) =~= s);
        assert(seq![s.drop_last()].update(0, s.drop_last().push(s.last())) =~= seq![s]);
    } else {
        assert(s =~= Seq::<char>::empty());
    }
}

proof fn lemma_last_piece_no_sep(s: Seq<char>, sep: char)
    ensures
        split_on(s, sep).len() >= 1,
        !split_on(s, sep).last().contains(sep),
    decreases s.len(),
{
    crate::text::lemma_split_on_len(s, sep);
    if s.len() > 0 {
        lemma_last_piece_no_sep(s.drop_last(), sep);
        let prev = split_on(s.drop_last(), sep);
        if s.last() != sep {
            let np = prev.last().push(s.last());
            assert(!np.contains(sep)) by {
                if np.contains(sep) {
                    let i = choose|i: int| 0 <= i < np.len() && np[i] == sep;
                    if i < prev.last().len() {
                        assert(prev.last()[i] == sep);
                    }
                }
            }
        } else {
            assert(!Seq::<char>::empty().contains(sep));
        }
    } else {
        assert(!Seq::<char>::empty().contains(sep));
    }
}

/// Splitting `x` then `y` continues `x`'s last piece: the pieces of `x + y`
/// are `x`'s finished pieces followed by the pieces of its last piece and `y`.
proof fn lemma_split_concat(x: Seq<char>, y: Seq<char>, sep: char)
    ensures
        split_on(x + y, sep) == split_on(x, sep).drop_last() + split_on(split_on(x, sep).last() + y, sep),
    decreases y.len(),
{
    lemma_last_piece_no_sep(x, sep);
    let px = split_on(x, sep);
    if y.len() == 0 {
        assert(x + y =~= x);
        assert(px.last() + y =~= px.last());
        lemma_split_no_sep(px.last(), sep);
        assert(px.drop_last() + seq![px.last()] =~= px);
    } else {
        let y0 = y.drop_last();
        let c = y.last();
        lemma_split_concat(x, y0, sep);
        assert((x + y).drop_last() =~= x + y0);
        assert((x + y).last() == c);
        assert((px.last() + y).drop_last() =~= px.last() + y0);
        assert((px.last() + y).last() == c);
        let d = px.drop_last();
        let t = split_on(px.last() + y0, sep);
        crate::text::lemma_split_on_len(px.last() + y0, sep);
        if c == sep {
            assert((d + t).push(seq![]) =~= d + t.push(seq![]));
        } else {
            assert((d + t).update((d + t).len() - 1, (d + t).last().push(c)) =~= d + t.update(
                t.len() - 1,
                t.last().push(c),
            ));
        }
    }
}

proof fn lemma_payloads_concat(xs: Seq<Seq<char>>, ys: Seq<Seq<char>>)
    ensures
        payloads_of(xs + ys) == payloads_of(xs) + payloads_of(ys),
    decreases ys.len(),
{
    if ys.len() == 0 {
        assert(xs + ys =~= xs);
        assert(payloads_of(xs) + payloads_of(ys) =~= payloads_of(xs));
    } else {
        lemma_payloads_concat(xs, ys.drop_last());
        assert((xs + ys).drop_last() =~= xs + ys.drop_last());
        assert((xs + ys).last() == ys.last());
        match data_payload(ys.last()) {
            Some(q) => {
                assert(payloads_of(xs) + payloads_of(ys.drop_last()).push(q) =~= (payloads_of(xs)
                    + payloads_of(ys.drop_last())).push(q));
            },
            None => {},
        }
    }
}

/// Cutting the stream anywhere changes nothing: feeding `a` then `b` gives
/// the same payloads, in the same order, and leaves the same unfinished
/// line as feeding `a + b` at once.
pub proof fn lemma_lines_split_anywhere(pending: Seq<char>, a: Seq<char>, b: Seq<char>)
    ensures
        ({
            let first = split_on(pending + a, '\n');
            let second = split_on(first.last() + b, '\n');
            let whole = split_on(pending + a + b, '\n');
            &&& payloads_of(first.drop_last()) + payloads_of(second.drop_last()) == payloads_of(whole.drop_last())
            &&& second.last() == whole.last()
        }),
{
    let first = split_on(pending + a, '\n');
    let second = split_on(first.last() + b, '\n');
    let whole = split_on(pending + a + b, '\n');
    lemma_split_concat(pending + a, b, '\n');
    crate::text::lemma_split_on_len(first.last() + b, '\n');
    assert(whole.drop_last() =~= first.drop_last() + second.drop_last());
    lemma_payloads_concat(first.drop_last(), second.drop_last());
}

/// Is this payload the end marker (`[DONE]`, surrounding blanks ignored)?
pub fn is_done_marker(payload: &str) -> (b: bool)
    ensures
        b == (trim(payload@) == "[DONE]"@),
{
    chars_equal(&trim_chars(&chars_of(payload)), &chars_of("[DONE]"))
}

// ---------------------------------------------------------------------------
// Decoding
// ---------------------------------------------------------------------------

/// The fields of one JSON chunk that the decoding reads (the timing
/// figures travel beside it).
#[derive(Clone, Debug)]
pub struct SseChunk {
    pub content: Option<String>,
    pub stop: bool,
    pub stopped_limit: Option<bool>,
    pub stop_type: Option<String>,
    pub tokens_predicted: Option<u64>,
    pub tokens_evaluated: Option<u64>,
}

/// The end of a generation as reported to the chat.
#[derive(Clone, Debug, PartialEq, Eq)]
pub struct StreamDone {
    pub full_text: String,
    pub tokens_predicted: u32,
    pub tokens_evaluated: u32,
    pub stopped_limit: Option<bool>,
    pub stop_type: Option<String>,
    /// Whether the final chunk's timings apply (only a stop chunk has them).
    pub from_stop_chunk: bool,
}

/// What the decoder hands to the chat.
#[derive(Clone, Debug, PartialEq, Eq)]
pub enum StreamAction {
    RawDelta(String),
    Token(String),
    ReasoningDelta(String),
    Done(StreamDone),
    Error(String),
}

pub ghost struct DoneModel {
    pub full_text: Seq<char>,
    pub tokens_predicted: u32,
    pub tokens_evaluated: u32,
    pub stopped_limit: Option<bool>,
    pub stop_type: Option<Seq<char>>,
    pub from_stop_chunk: bool,
}

pub ghost enum ActionModel {
    Raw(Seq<char>),
    Token(Seq<char>),
    Reasoning(Seq<char>),
    Done(DoneModel),
    Error(Seq<char>),
}

pub open spec fn opt_text(o: Option<String>) -> Option<Seq<char>> {
    match o {
        Some(s) => Some(s@),
        None => None,
    }
}

impl View for StreamAction {
    type V = ActionModel;

    open spec fn view(&self) -> ActionModel {
        match self {
            StreamAction::RawDelta(s) => ActionModel::Raw(s@),
            StreamAction::Token(s) => ActionModel::Token(s@),
            StreamAction::ReasoningDelta(s) => ActionModel::Reasoning(s@),
            StreamAction::Done(d) => ActionModel::Done(
                DoneModel {
                    full_text: d.full_text@,
                    tokens_predicted: d.tokens_predicted,
                    tokens_evaluated: d.tokens_evaluated,
                    stopped_limit: d.stopped_limit,
                    stop_type: opt_text(d.stop_type),
                    from_stop_chunk: d.from_stop_chunk,
                },
            ),
            StreamAction::Error(s) => ActionModel::Error(s@),
        }
    }
}

pub open spec fn actions_view(v: Seq<StreamAction>) -> Seq<ActionModel> {
    v.map_values(|a: StreamAction| a@)
}

/// Routed text as actions.
pub open spec fn lift(ev: Seq<EventModel>) -> Seq<ActionModel> {
    ev.map_values(
        |e: EventModel|
            match e {
                EventModel::Token(s) => ActionModel::Token(s),
                EventModel::Reasoning(s) => ActionModel::Reasoning(s),
            },
    )
}

/// A `Done` with no counts: what every end but a stop chunk reports.
pub open spec fn plain_done(full_text: Seq<char>) -> ActionModel {
    ActionModel::Done(
        DoneModel {
            full_text,
            tokens_predicted: 0,
            tokens_evaluated: 0,
            stopped_limit: None,
            stop_type: None,
            from_stop_chunk: false,
        },
    )
}

/// What the decoder holds.
pub ghost struct DecoderModel {
    pub full_text: Seq<char>,
    pub parser: ParserModel,
    pub got_first_token: bool,
    pub finished: bool,
}

/// The parser with `text` appended to what it holds.
pub open spec fn fed(m: ParserModel, text: Seq<char>) -> ParserModel {
    ParserModel { buffer: m.buffer + text, ..m }
}

/// Routing of a stop chunk's leftovers: only when something is buffered.
pub open spec fn settle(m: ParserModel) -> (ParserModel, Seq<EventModel>) {
    if m.buffer.len() > 0 {
        run(m)
    } else {
        (m, seq![])
    }
}

pub open spec fn content_of(c: SseChunk) -> Seq<char> {
    match c.content {
        Some(s) => s@,
        None => seq![],
    }
}

/// The decoder after a chunk, and the actions the chunk gives.
pub open spec fn after_chunk(d: DecoderModel, c: SseChunk) -> (DecoderModel, Seq<ActionModel>) {
    let text = content_of(c);
    let (p1, ev1) = if text.len() > 0 {
        run(fed(d.parser, text))
    } else {
        (d.parser, seq![])
    };
    let a1 = if text.len() > 0 {
        seq![ActionModel::Raw(text)] + lift(ev1)
    } else {
        seq![]
    };
    let full = d.full_text + text;
    let got = d.got_first_token || text.len() > 0;
    if c.stop {
        let (p2, ev2) = settle(p1);
        let done = ActionModel::Done(
            DoneModel {
                full_text: full,
                tokens_predicted: match c.tokens_predicted {
                    Some(v) => v as u32,
                    None => 0,
                },
                tokens_evaluated: match c.tokens_evaluated {
                    Some(v) => v as u32,
                    None => 0,
                },
                stopped_limit: c.stopped_limit,
                stop_type: opt_text(c.stop_type),
                from_stop_chunk: true,
            },
        );
        (
            DecoderModel { full_text: full, parser: p2, got_first_token: got, finished: true },
            a1 + lift(ev2) + seq![done],
        )
    } else {
        (DecoderModel { full_text: full, parser: p1, got_first_token: got, finished: d.finished }, a1)
    }
}

/// Turns stream happenings into chat actions.
pub struct SseDecoder {
    full_text: Vec<char>,
    parser: ContentParser,
    got_first_token: bool,
    finished: bool,
}

impl View for SseDecoder {
    type V = DecoderModel;

    closed spec fn view(&self) -> DecoderModel {
        DecoderModel {
            full_text: self.full_text@,
            parser: self.parser@,
            got_first_token: self.got_first_token,
            finished: self.finished,
        }
    }
}

proof fn lemma_lift_push(s: Seq<EventModel>, e: EventModel)
    ensures
        lift(s.push(e)) == lift(s).push(
            match e {
                EventModel::Token(t) => ActionModel::Token(t),
                EventModel::Reasoning(t) => ActionModel::Reasoning(t),
            },
        ),
{
    assert(lift(s.push(e)) =~= lift(s).push(
        match e {
            EventModel::Token(t) => ActionModel::Token(t),
            EventModel::Reasoning(t) => ActionModel::Reasoning(t),
        },
    ));
}

fn push_events(actions: &mut Vec<StreamAction>, events: Vec<ContentEvent>)
    ensures
        actions_view(final(actions)@) == actions_view(old(actions)@) + lift(events_view(events@)),
{
    let ghost a0 = actions_view(actions@);
    let ghost evs = events_view(events@);
    let mut i: usize = 0;
    while i < events.len()
        invariant
            i <= events.len(),
            evs == events_view(events@),
            actions_view(actions@) == a0 + lift(evs.take(i as int)),
        decreases events.len() - i,
    {
        proof {
            assert(evs.take(i + 1) =~= evs.take(i as int).push(evs[i as int]));
            lemma_lift_push(evs.take(i as int), evs[i as int]);
        }
        let ghost before = actions@;
        match &events[i] {
            ContentEvent::Token(s) => actions.push(StreamAction::Token(s.clone())),
            ContentEvent::ReasoningDelta(s) => actions.push(StreamAction::ReasoningDelta(s.clone())),
        }
        assert(actions@ == before.push(actions@.last()));
        assert(actions_view(actions@) =~= actions_view(before).push(actions@.last()@));
        i += 1;
    }
    assert(evs.take(i as int) =~= evs);
}

fn append_chars(dst: &mut Vec<char>, src: &[char])
    ensures
        final(dst)@ == old(dst)@ + src@,
{
    let ghost d0 = dst@;
    let mut k: usize = 0;
    while k < src.len()
        invariant
            k <= src.len(),
            dst@ == d0 + src@.take(k as int),
        decreases src.len() - k,
    {
        dst.push(src[k]);
        k += 1;
        assert(dst@ =~= d0 + src@.take(k as int));
    }
    assert(src@.take(k as int) =~= src@);
}

fn plain_done_exec(full_text: &Vec<char>) -> (a: StreamAction)
    ensures
        a@ == plain_done(full_text@),
{
    StreamAction::Done(
        StreamDone {
            full_text: string_of(full_text),
            tokens_predicted: 0,
            tokens_evaluated: 0,
            stopped_limit: None,
            stop_type: None,
            from_stop_chunk: false,
        },
    )
}

impl SseDecoder {
    /// A decoder before the first chunk.
    pub fn new() -> (d: Self)
        ensures
            d@ == (DecoderModel {
                full_text: seq![],
                parser: ParserModel { buffer: seq![], in_think: false, hidden: None, boundary: false },
                got_first_token: false,
                finished: false,
            }),
    {
        SseDecoder { full_text: Vec::new(), parser: ContentParser::new(), got_first_token: false, finished: false }
    }

    /// The whole generated text so far.
    pub fn full_text(&self) -> (s: String)
        ensures
            s@ == self@.full_text,
    {
        string_of(&self.full_text)
    }

    /// Has a final action been given?
    pub fn is_finished(&self) -> (b: bool)
        ensures
            b == self@.finished,
    {
        self.finished
    }

    /// How long to wait for the next chunk: the first-token limit until
    /// content has arrived, the inter-token limit after.
    pub fn timeout_secs(&self, first_token_timeout_secs: u64, inter_token_timeout_secs: u64) -> (s: u64)
        ensures
            s == (if self@.got_first_token { inter_token_timeout_secs } else { first_token_timeout_secs }),
    {
        if self.got_first_token {
            inter_token_timeout_secs
        } else {
            first_token_timeout_secs
        }
    }

    /// A JSON chunk: its content is appended to the full text, passed on
    /// raw and routed; a stop chunk then routes what is left, reports the
    /// counts (truncated to 32 bits) and ends the generation.
    pub fn on_chunk(&mut self, chunk: SseChunk) -> (actions: Vec<StreamAction>)
        ensures
            final(self)@ == after_chunk(old(self)@, chunk).0,
            actions_view(actions@) == after_chunk(old(self)@, chunk).1,
    {
        let ghost d0 = self@;
        let mut actions: Vec<StreamAction> = Vec::new();
        let text: Vec<char> = match &chunk.content {
            Some(s) => chars_of(s.as_str()),
            None => Vec::new(),
        };
        assert(text@ == content_of(chunk));
        if text.len() > 0 {
            append_chars(&mut self.full_text, &text);
            let s = string_of(&text);
            actions.push(StreamAction::RawDelta(string_of(&text)));
            assert(actions_view(actions@) =~= seq![ActionModel::Raw(text@)]);
            let events = self.parser.push(s.as_str());
            assert(fed(d0.parser, text@) == ParserModel { buffer: d0.parser.buffer + s@, ..d0.parser });
            push_events(&mut actions, events);
            self.got_first_token = true;
            assert(actions_view(actions@) =~= seq![ActionModel::Raw(text@)] + lift(
                run(fed(d0.parser, text@)).1,
            ));
        } else {
            assert(self.full_text@ =~= d0.full_text + text@);
            assert(actions_view(actions@) =~= Seq::<ActionModel>::empty());
        }
        if chunk.stop {
            let predicted: u32 = match chunk.tokens_predicted {
                Some(v) => #[verifier::truncate] (v as u32),
                None => 0,
            };
            let evaluated: u32 = match chunk.tokens_evaluated {
                Some(v) => #[verifier::truncate] (v as u32),
                None => 0,
            };
            let ghost a1 = actions_view(actions@);
            let held = self.parser.buffered();
            if !held.as_str().is_empty() {
                let events = self.parser.emit_parsed_content();
                push_events(&mut actions, events);
            } else {
                assert(actions_view(actions@) =~= a1 + lift(Seq::<EventModel>::empty()));
            }
            let ghost a2 = actions_view(actions@);
            actions.push(
                StreamAction::Done(
                    StreamDone {
                        full_text: string_of(&self.full_text),
                        tokens_predicted: predicted,
                        tokens_evaluated: evaluated,
                        stopped_limit: chunk.stopped_limit,
                        stop_type: chunk.stop_type,
                        from_stop_chunk: true,
                    },
                ),
            );
            self.finished = true;
            assert(actions_view(actions@) =~= a2.push(actions@.last()@));
        }
        actions
    }

    /// The end marker: what is buffered is flushed in the current mode and
    /// the generation ends with its full text.
    pub fn on_done_marker(&mut self) -> (actions: Vec<StreamAction>)
        ensures
            final(self)@ == (DecoderModel { parser: flush(old(self)@.parser).0, finished: true, ..old(self)@ }),
            actions_view(actions@) == lift(flush(old(self)@.parser).1).push(plain_done(old(self)@.full_text)),
    {
        let mut actions: Vec<StreamAction> = Vec::new();
        let events = self.parser.finish();
        push_events(&mut actions, events);
        let ghost a1 = actions_view(actions@);
        actions.push(plain_done_exec(&self.full_text));
        self.finished = true;
        assert(actions_view(actions@) =~= a1.push(plain_done(old(self)@.full_text)));
        actions
    }

    /// The stream ended without an end marker: what is buffered is routed;
    /// an empty generation is an error, any other ends normally.
    pub fn on_end_of_stream(&mut self) -> (actions: Vec<StreamAction>)
        ensures
            final(self)@ == (DecoderModel { parser: settle(old(self)@.parser).0, finished: true, ..old(self)@ }),
            actions_view(actions@) == lift(settle(old(self)@.parser).1).push(
                if old(self)@.full_text.len() == 0 {
                    ActionModel::Error("llama-server returned empty response"@)
                } else {
                    plain_done(old(self)@.full_text)
                },
            ),
    {
        let mut actions: Vec<StreamAction> = Vec::new();
        let held = self.parser.buffered();
        if !held.as_str().is_empty() {
            let events = self.parser.emit_parsed_content();
            push_events(&mut actions, events);
        } else {
            assert(actions_view(actions@) =~= lift(Seq::<EventModel>::empty()));
        }
        let ghost a1 = actions_view(actions@);
        if self.full_text.len() == 0 {
            actions.push(StreamAction::Error("llama-server returned empty response".to_string()));
        } else {
            actions.push(plain_done_exec(&self.full_text));
        }
        self.finished = true;
        assert(actions_view(actions@) =~= a1.push(actions@.last()@));
        actions
    }

    /// No chunk arrived in time: with nothing generated the chat gets the
    /// timeout as an error, otherwise the generation ends with what it has.
    pub fn on_timeout(&mut self) -> (actions: Vec<StreamAction>)
        ensures
            final(self)@ == (DecoderModel { finished: true, ..old(self)@ }),
            actions_view(actions@) == seq![
                if old(self)@.full_text.len() > 0 {
                    plain_done(old(self)@.full_text)
                } else if old(self)@.got_first_token {
                    ActionModel::Error("llama-server stopped responding (inter-token timeout)"@)
                } else {
                    ActionModel::Error(
                        "llama-server took too long to start generating (prompt evaluation timeout)"@,
                    )
                },
            ],
    {
        let a = if self.full_text.len() > 0 {
            plain_done_exec(&self.full_text)
        } else if self.got_first_token {
            StreamAction::Error("llama-server stopped responding (inter-token timeout)".to_string())
        } else {
            StreamAction::Error(
                "llama-server took too long to start generating (prompt evaluation timeout)".to_string(),
            )
        };
        self.finished = true;
        let actions = vec![a];
        assert(actions_view(actions@) =~= seq![actions@[0]@]);
        actions
    }

    /// The generation was cancelled: it ends with what it has.
    pub fn on_cancel(&mut self) -> (actions: Vec<StreamAction>)
        ensures
            final(self)@ == (DecoderModel { finished: true, ..old(self)@ }),
            actions_view(actions@) == seq![plain_done(old(self)@.full_text)],
    {
        let a = plain_done_exec(&self.full_text);
        self.finished = true;
        let actions = vec![a];
        assert(actions_view(actions@) =~= seq![actions@[0]@]);
        actions
    }

    /// Reading the stream failed: the chat gets the error.
    pub fn on_stream_error(&mut self, message: String) -> (actions: Vec<StreamAction>)
        ensures
            final(self)@ == (DecoderModel { finished: true, ..old(self)@ }),
            actions_view(actions@) == seq![ActionModel::Error(message@)],
    {
        self.finished = true;
        let actions = vec![StreamAction::Error(message)];
        assert(actions_view(actions@) =~= seq![actions@[0]@]);
        actions
    }
}

/// Whatever the chunks, the full text is the concatenation of their
/// contents: a chunk adds exactly its content to it.
pub proof fn lemma_full_text_grows_by_content(d: DecoderModel, c: SseChunk)
    ensures
        after_chunk(d, c).0.full_text == d.full_text + content_of(c),
        after_chunk(d, c).0.got_first_token == (d.got_first_token || content_of(c).len() > 0),
        c.stop ==> after_chunk(d, c).0.finished,
{
}

/// An action that ends a generation.
pub open spec fn is_final(a: ActionModel) -> bool {
    a is Done || a is Error
}

/// The contents of a run of chunks, one after another.
pub open spec fn contents(cs: Seq<SseChunk>) -> Seq<char>
    decreases cs.len(),
{
    if cs.len() == 0 {
        seq![]
    } else {
        contents(cs.drop_last()) + content_of(cs.last())
    }
}

/// A run of chunks fed to the decoder one by one, up to the first stop
/// chunk (after which the stream is not read): the decoder after them and
/// all the actions they give.
pub open spec fn chunks_run(d: DecoderModel, cs: Seq<SseChunk>) -> (DecoderModel, Seq<ActionModel>)
    decreases cs.len(),
{
    if cs.len() == 0 {
        (d, seq![])
    } else {
        let (d1, a1) = after_chunk(d, cs[0]);
        if cs[0].stop {
            (d1, a1)
        } else {
            let (d2, a2) = chunks_run(d1, cs.drop_first());
            (d2, a1 + a2)
        }
    }
}

proof fn lemma_lift_not_final(ev: Seq<EventModel>)
    ensures
        forall|i: int| 0 <= i < lift(ev).len() ==> !is_final(#[trigger] lift(ev)[i]),
{
}

proof fn lemma_contents_first(cs: Seq<SseChunk>)
    requires
        cs.len() > 0,
    ensures
        contents(cs) == content_of(cs[0]) + contents(cs.drop_first()),
    decreases cs.len(),
{
    if cs.len() == 1 {
        assert(cs.drop_last() =~= Seq::<SseChunk>::empty());
        assert(cs.drop_first() =~= Seq::<SseChunk>::empty());
        assert(contents(cs.drop_first()) == Seq::<char>::empty());
        assert(contents(cs.drop_last()) == Seq::<char>::empty());
        assert(contents(cs) =~= content_of(cs[0]) + contents(cs.drop_first()));
    } else {
        lemma_contents_first(cs.drop_last());
        assert(cs.drop_last().drop_first() =~= cs.drop_first().drop_last());
        assert(cs.drop_first().last() == cs.last());
        assert(cs.drop_last()[0] == cs[0]);
        assert(contents(cs) =~= content_of(cs[0]) + contents(cs.drop_first()));
    }
}

/// Chunks that do not stop the stream: the full text grows by exactly
/// their contents, one after another, and none of their actions ends the
/// generation.
pub proof fn lemma_open_chunks(d: DecoderModel, cs: Seq<SseChunk>)
    requires
        forall|i: int| 0 <= i < cs.len() ==> !(#[trigger] cs[i]).stop,
    ensures
        chunks_run(d, cs).0.full_text == d.full_text + contents(cs),
        chunks_run(d, cs).0.finished == d.finished,
        forall|i: int| 0 <= i < chunks_run(d, cs).1.len() ==> !is_final(#[trigger] chunks_run(d, cs).1[i]),
    decreases cs.len(),
{
    if cs.len() == 0 {
        assert(d.full_text + contents(cs) =~= d.full_text);
    } else {
        let c = cs[0];
        let (d1, a1) = after_chunk(d, c);
        let text = content_of(c);
        let ev1 = if text.len() > 0 { run(fed(d.parser, text)).1 } else { seq![] };
        lemma_lift_not_final(ev1);
        assert(forall|i: int| 0 <= i < a1.len() ==> !is_final(#[trigger] a1[i])) by {
            if text.len() > 0 {
                assert(a1 =~= seq![ActionModel::Raw(text)] + lift(ev1));
                assert forall|i: int| 0 <= i < a1.len() implies !is_final(#[trigger] a1[i]) by {
                    if i > 0 {
                        assert(a1[i] == lift(ev1)[i - 1]);
                    }
                }
            }
        }
        let rest = cs.drop_first();
        assert forall|i: int| 0 <= i < rest.len() implies !(#[trigger] rest[i]).stop by {
            assert(rest[i] == cs[i + 1]);
        }
        lemma_open_chunks(d1, rest);
        lemma_contents_first(cs);
        let (d2, a2) = chunks_run(d1, rest);
        assert(chunks_run(d, cs) == (d2, a1 + a2));
        assert(d2.full_text =~= d.full_text + contents(cs));
        assert forall|i: int| 0 <= i < (a1 + a2).len() implies !is_final(#[trigger] (a1 + a2)[i]) by {
            if i >= a1.len() {
                assert((a1 + a2)[i] == a2[i - a1.len()]);
            }
        }
    }
}

/// A stream of chunks ending with a stop chunk (none before it): the full
/// text is the concatenation of the chunks' contents, and exactly one
/// action ends the generation, the last one, a `Done` carrying that full
/// text and the stop chunk's token counts.
pub proof fn lemma_stream_ends_once(d: DecoderModel, cs: Seq<SseChunk>)
    requires
        cs.len() > 0,
        forall|i: int| 0 <= i < cs.len() - 1 ==> !(#[trigger] cs[i]).stop,
        cs.last().stop,
    ensures
        chunks_run(d, cs).0.full_text == d.full_text + contents(cs),
        chunks_run(d, cs).0.finished,
        chunks_run(d, cs).1.len() > 0,
        chunks_run(d, cs).1.last() matches ActionModel::Done(done) && done.full_text == d.full_text + contents(cs)
            && done.tokens_predicted == (match cs.last().tokens_predicted {
            Some(v) => v as u32,
            None => 0,
        }) && done.tokens_evaluated == (match cs.last().tokens_evaluated {
            Some(v) => v as u32,
            None => 0,
        }) && done.from_stop_chunk,
        forall|i: int| 0 <= i < chunks_run(d, cs).1.len() - 1 ==> !is_final(#[trigger] chunks_run(d, cs).1[i]),
    decreases cs.len(),
{
    let c = cs[0];
    let (d1, a1) = after_chunk(d, c);
    let text = content_of(c);
    let ev1 = if text.len() > 0 { run(fed(d.parser, text)).1 } else { seq![] };
    lemma_lift_not_final(ev1);
    let pre = if text.len() > 0 { seq![ActionModel::Raw(text)] + lift(ev1) } else { seq![] };
    assert forall|i: int| 0 <= i < pre.len() implies !is_final(#[trigger] pre[i]) by {
        if text.len() > 0 && i > 0 {
            assert(pre[i] == lift(ev1)[i - 1]);
        }
    }
    lemma_contents_first(cs);
    if cs.len() == 1 {
        assert(c.stop);
        assert(cs.drop_first() =~= Seq::<SseChunk>::empty());
        let p1 = if text.len() > 0 { run(fed(d.parser, text)).0 } else { d.parser };
        let ev2 = settle(p1).1;
        lemma_lift_not_final(ev2);
        let body = pre + lift(ev2);
        assert(a1 == body.push(a1.last()));
        assert forall|i: int| 0 <= i < a1.len() - 1 implies !is_final(#[trigger] a1[i]) by {
            assert(a1[i] == body[i]);
            if i >= pre.len() {
                assert(body[i] == lift(ev2)[i - pre.len()]);
            }
        }
        assert(d.full_text + contents(cs) =~= d.full_text + text);
    } else {
        assert(!c.stop);
        let rest = cs.drop_first();
        assert forall|i: int| 0 <= i < rest.len() - 1 implies !(#[trigger] rest[i]).stop by {
            assert(rest[i] == cs[i + 1]);
        }
        assert(rest.last() == cs.last());
        assert(a1 == pre);
        lemma_stream_ends_once(d1, rest);
        let (d2, a2) = chunks_run(d1, rest);
        assert(chunks_run(d, cs) == (d2, a1 + a2));
        assert(d2.full_text =~= d.full_text + contents(cs));
        assert((a1 + a2).last() == a2.last());
        assert forall|i: int| 0 <= i < (a1 + a2).len() - 1 implies !is_final(#[trigger] (a1 + a2)[i]) by {
            if i >= a1.len() {
                assert((a1 + a2)[i] == a2[i - a1.len()]);
            }
        }
    }
}

} // verus!

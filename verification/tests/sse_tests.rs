use inference_bridge::engine::sse::{is_done_marker, SseChunk, SseDecoder, SseLines, StreamAction, StreamDone};

fn chunk(content: Option<&str>, stop: bool) -> SseChunk {
    SseChunk {
        content: content.map(|c| c.to_string()),
        stop,
        stopped_limit: None,
        stop_type: None,
        tokens_predicted: None,
        tokens_evaluated: None,
    }
}

fn plain_done(text: &str) -> StreamAction {
    StreamAction::Done(StreamDone {
        full_text: text.to_string(),
        tokens_predicted: 0,
        tokens_evaluated: 0,
        stopped_limit: None,
        stop_type: None,
        from_stop_chunk: false,
    })
}

#[test]
fn lines_are_cut_across_chunks() {
    let mut lines = SseLines::new();
    assert!(lines.push_text("data: {\"a\"").is_empty());
    assert_eq!(lines.pending(), "data: {\"a\"");
    let out = lines.push_text(":1}\n\n: keep-alive\nevent: x\n  data: [DONE]  \ndata: par");
    assert_eq!(out, vec!["{\"a\":1}".to_string(), "[DONE]".to_string()]);
    assert_eq!(lines.pending(), "data: par");
    assert!(is_done_marker(" [DONE] "));
    assert!(!is_done_marker("[done]"));
}

#[test]
fn content_is_raw_and_routed_then_stop_reports_counts() {
    let mut d = SseDecoder::new();
    assert_eq!(d.timeout_secs(900, 300), 900);
    let a = d.on_chunk(chunk(Some("Hi <think>hm"), false));
    assert_eq!(
        a,
        vec![
            StreamAction::RawDelta("Hi <think>hm".to_string()),
            StreamAction::Token("Hi ".to_string()),
            StreamAction::ReasoningDelta("hm".to_string()),
        ]
    );
    assert_eq!(d.timeout_secs(900, 300), 300);
    let mut stop = chunk(Some("</think>ok"), true);
    stop.tokens_predicted = Some((1u64 << 32) + 7);
    stop.tokens_evaluated = Some(12);
    stop.stop_type = Some("eos".to_string());
    let a = d.on_chunk(stop);
    assert_eq!(a.len(), 3);
    assert_eq!(a[0], StreamAction::RawDelta("</think>ok".to_string()));
    assert_eq!(a[1], StreamAction::Token("ok".to_string()));
    assert_eq!(
        a[2],
        StreamAction::Done(StreamDone {
            full_text: "Hi <think>hm</think>ok".to_string(),
            tokens_predicted: 7,
            tokens_evaluated: 12,
            stopped_limit: None,
            stop_type: Some("eos".to_string()),
            from_stop_chunk: true,
        })
    );
    assert!(d.is_finished());
}

#[test]
fn done_marker_flushes_the_partial_tag() {
    let mut d = SseDecoder::new();
    let a = d.on_chunk(chunk(Some("answer <thi"), false));
    assert_eq!(a[1], StreamAction::Token("answer ".to_string()));
    let a = d.on_done_marker();
    assert_eq!(a, vec![StreamAction::Token("<thi".to_string()), plain_done("answer <thi")]);
}

#[test]
fn end_timeout_and_cancel() {
    let mut empty = SseDecoder::new();
    assert_eq!(
        empty.on_end_of_stream(),
        vec![StreamAction::Error("llama-server returned empty response".to_string())]
    );
    let mut slow = SseDecoder::new();
    assert_eq!(
        slow.on_timeout(),
        vec![StreamAction::Error(
            "llama-server took too long to start generating (prompt evaluation timeout)".to_string()
        )]
    );
    let mut partial = SseDecoder::new();
    partial.on_chunk(chunk(Some("abc"), false));
    assert_eq!(partial.on_timeout(), vec![plain_done("abc")]);
    let mut cancelled = SseDecoder::new();
    assert_eq!(cancelled.on_cancel(), vec![plain_done("")]);
    let mut failed = SseDecoder::new();
    assert_eq!(failed.on_stream_error("boom".to_string()), vec![StreamAction::Error("boom".to_string())]);
    assert_eq!(failed.full_text(), "");
}

#[test]
fn cutting_the_stream_anywhere_gives_the_same_payloads() {
    let text = "data: {\"content\":\"a\"}\n\n: ping\ndata: [DONE]\ndata: tail";
    let mut whole = SseLines::new();
    let all = whole.push_text(text);
    for cut in 0..=text.len() {
        if !text.is_char_boundary(cut) {
            continue;
        }
        let mut lines = SseLines::new();
        let mut got = lines.push_text(&text[..cut]);
        got.extend(lines.push_text(&text[cut..]));
        assert_eq!(got, all, "cut at {cut}");
        assert_eq!(lines.pending(), whole.pending());
    }
}

#[test]
fn a_stream_ends_once_with_the_whole_text_and_the_stop_counts() {
    let mut decoder = SseDecoder::new();
    let mut actions = Vec::new();
    for piece in ["Hel", "", "lo <think>x</think>", " world"] {
        actions.extend(decoder.on_chunk(chunk(Some(piece), false)));
        assert!(!decoder.is_finished());
    }
    let mut last = chunk(Some("!"), true);
    last.tokens_predicted = Some(7);
    last.tokens_evaluated = Some((1u64 << 32) + 3);
    actions.extend(decoder.on_chunk(last));
    assert!(decoder.is_finished());
    let finals = actions
        .iter()
        .filter(|a| matches!(a, StreamAction::Done(_) | StreamAction::Error(_)))
        .count();
    assert_eq!(finals, 1);
    match actions.last().unwrap() {
        StreamAction::Done(d) => {
            assert_eq!(d.full_text, "Hello <think>x</think> world!");
            assert_eq!(d.tokens_predicted, 7);
            assert_eq!(d.tokens_evaluated, 3);
            assert!(d.from_stop_chunk);
        },
        other => panic!("unexpected final action {:?}", other),
    }
    assert_eq!(decoder.full_text(), "Hello <think>x</think> world!");
}

use cognitrade::llm::parse::json_tail;
use cognitrade::llm::prompt::{build_messages, CacheControl, ChatMessage, MessageContent, PromptInputs};
use cognitrade::llm::streaming::{
    event_kind, stream_event, EventData, EventKind, SseDecoder, StreamEvent, StreamTotals,
    UsageCounts,
};
use cognitrade::llm::types::{Action, Horizon};

#[test]
fn json_tail_of_well_formed_block() {
    let text = "\nSome prose first.\n\n```json\n{\n  \"action\": \"buy\",\n  \"probability_up\": 0.65\n}\n```\n";
    assert_eq!(
        json_tail(text),
        Some("{\n  \"action\": \"buy\",\n  \"probability_up\": 0.65\n}".to_string())
    );
}

#[test]
fn json_tail_missing_fence() {
    assert_eq!(json_tail("just prose, no fence"), None);
    assert_eq!(json_tail("```json {\"a\":1}"), None);
}

#[test]
fn json_tail_picks_last_fence() {
    let t = "\n```json\n{\"action\":\"hold\"}\n```\nlater\n```json\n{\"action\":\"sell\"}\n```\n";
    assert_eq!(json_tail(t), Some("{\"action\":\"sell\"}".to_string()));
}

#[test]
fn json_tail_body_is_parseable() {
    let t = "```json\n{\"action\":\"buy\",\"probability_up\":1.5,\"horizon\":\"4h\"}\n```";
    let body = json_tail(t).unwrap();
    let v: serde_json::Value = serde_json::from_str(&body).unwrap();
    assert_eq!(v["horizon"], "4h");
}

#[test]
fn builds_user_turn_with_image_and_chunks() {
    let chunks = vec!["pattern A says X".to_string(), "pattern B says Y".to_string()];
    let inputs = PromptInputs {
        retrieved_chunks: chunks,
        history: vec![],
        user_text: "what should I do?".to_string(),
        image_b64: Some("ZmFrZQ==".to_string()),
    };
    let msgs = build_messages(&inputs);
    assert_eq!(msgs.len(), 1);
    let last = &msgs[0];
    assert_eq!(last.role, "user");
    let arr = match &last.content {
        MessageContent::Blocks(b) => b,
        MessageContent::Text(_) => panic!("expected blocks"),
    };
    assert_eq!(arr.len(), 3);
    assert_eq!(arr[0].kind, "text");
    assert_eq!(arr[0].cache_control.as_ref().unwrap().kind, "ephemeral");
    assert_eq!(arr[1].kind, "image");
    assert_eq!(arr[2].kind, "text");
    assert_eq!(arr[2].text.as_deref(), Some("what should I do?"));
}

#[test]
fn no_chunks_means_no_cached_block() {
    let inputs = PromptInputs {
        retrieved_chunks: vec![],
        history: vec![],
        user_text: "hi".to_string(),
        image_b64: None,
    };
    let msgs = build_messages(&inputs);
    let arr = match &msgs[0].content {
        MessageContent::Blocks(b) => b,
        MessageContent::Text(_) => panic!("expected blocks"),
    };
    assert_eq!(arr.len(), 1);
}

#[test]
fn includes_history_first() {
    let history = vec![
        ChatMessage { role: "user".into(), content: MessageContent::Text("earlier q".into()) },
        ChatMessage { role: "assistant".into(), content: MessageContent::Text("earlier a".into()) },
    ];
    let inputs = PromptInputs { retrieved_chunks: vec![], history, user_text: "now".into(), image_b64: None };
    let msgs = build_messages(&inputs);
    assert_eq!(msgs.len(), 3);
    assert_eq!(msgs[0].role, "user");
    assert_eq!(msgs[1].role, "assistant");
    assert_eq!(msgs[2].role, "user");
}

#[test]
fn retrieved_block_joins_chunks() {
    let inputs = PromptInputs {
        retrieved_chunks: vec!["a".to_string(), "b".to_string()],
        history: vec![],
        user_text: "q".to_string(),
        image_b64: None,
    };
    let msgs = build_messages(&inputs);
    match &msgs[0].content {
        MessageContent::Blocks(b) => {
            assert_eq!(b.len(), 2);
            assert_eq!(b[0].text.as_deref(), Some("Retrieved knowledge:\n\na\n\n---\n\nb"));
            assert!(b[1].cache_control.is_none());
            assert!(b[0].source.is_none());
        },
        MessageContent::Text(_) => panic!("expected blocks"),
    }
}

#[test]
fn image_block_is_base64_png() {
    let inputs = PromptInputs {
        retrieved_chunks: vec![],
        history: vec![],
        user_text: "q".to_string(),
        image_b64: Some("QUJD".to_string()),
    };
    let msgs = build_messages(&inputs);
    match &msgs[0].content {
        MessageContent::Blocks(b) => {
            let src = b[0].source.as_ref().unwrap();
            assert_eq!(src.kind, "base64");
            assert_eq!(src.media_type, "image/png");
            assert_eq!(src.data, "QUJD");
            assert!(b[0].text.is_none());
        },
        MessageContent::Text(_) => panic!("expected blocks"),
    }
}

#[test]
fn ephemeral_marker() {
    assert_eq!(CacheControl::ephemeral().kind, "ephemeral");
}

#[test]
fn horizon_seconds() {
    assert_eq!(Horizon::H1.seconds(), 3600);
    assert_eq!(Horizon::H4.seconds(), 14_400);
    assert_eq!(Horizon::D1.seconds(), 86_400);
    assert_eq!(Horizon::D3.seconds(), 259_200);
    assert_eq!(Horizon::W1.seconds(), 604_800);
}

#[test]
fn action_labels() {
    assert_eq!(Action::Buy.label(), "buy");
    assert_eq!(Action::Sell.label(), "sell");
    assert_eq!(Action::Hold.label(), "hold");
}

#[test]
fn event_kinds() {
    assert_eq!(event_kind("content_block_delta"), EventKind::ContentBlockDelta);
    assert_eq!(event_kind("message_start"), EventKind::MessageStart);
    assert_eq!(event_kind("message_delta"), EventKind::MessageDelta);
    assert_eq!(event_kind("message_stop"), EventKind::MessageStop);
    assert_eq!(event_kind("ping"), EventKind::Other);
    assert_eq!(event_kind("message"), EventKind::Other);
}

#[test]
fn text_delta_becomes_text_event() {
    let e = stream_event(EventKind::ContentBlockDelta, EventData::TextDelta("hello".into()));
    assert_eq!(e, Some(StreamEvent::Text("hello".into())));
    assert_eq!(stream_event(EventKind::ContentBlockDelta, EventData::OtherDelta), None);
}

#[test]
fn message_start_usage_counts_cache_writes_as_input() {
    let u = UsageCounts {
        input_tokens: 120,
        cache_creation_input_tokens: 10,
        cache_read_input_tokens: 50,
        output_tokens: 0,
    };
    assert_eq!(
        stream_event(EventKind::MessageStart, EventData::Usage(u)),
        Some(StreamEvent::Usage { input_tokens: 130, cached_input_tokens: 50, output_tokens: 0 })
    );
    assert_eq!(stream_event(EventKind::MessageStart, EventData::NoUsage), None);
}

#[test]
fn stop_and_unknown_events() {
    assert_eq!(stream_event(EventKind::MessageStop, EventData::Malformed), Some(StreamEvent::Done));
    assert_eq!(stream_event(EventKind::Other, EventData::Malformed), None);
    assert_eq!(stream_event(EventKind::MessageDelta, EventData::Malformed), None);
}

fn fake_sse_body() -> String {
    let evts = [
        ("message_start", r#"{"type":"message_start","message":{"usage":{"input_tokens":100,"cache_creation_input_tokens":0,"cache_read_input_tokens":50,"output_tokens":0}}}"#),
        ("content_block_delta", r#"{"type":"content_block_delta","index":0,"delta":{"type":"text_delta","text":"Looks bullish.\n\n"}}"#),
        ("message_delta", r#"{"type":"message_delta","usage":{"output_tokens":80}}"#),
        ("message_stop", r#"{"type":"message_stop"}"#),
    ];
    let mut s = String::new();
    for (name, data) in evts {
        s.push_str(&format!("event: {}\ndata: {}\n\n", name, data));
    }
    s
}

#[test]
fn sse_frames_from_whole_body() {
    let body = fake_sse_body();
    let mut d = SseDecoder::new();
    let frames = d.feed(&body);
    let names: Vec<&str> = frames.iter().map(|f| f.event.as_str()).collect();
    assert_eq!(names, vec!["message_start", "content_block_delta", "message_delta", "message_stop"]);
    assert_eq!(frames[3].data, r#"{"type":"message_stop"}"#);
}

#[test]
fn sse_frames_do_not_depend_on_chunking() {
    let body = fake_sse_body();
    let mut whole = SseDecoder::new();
    let all = whole.feed(&body);
    let bytes = body.as_bytes();
    for step in [1usize, 2, 3, 7, 64] {
        let mut d = SseDecoder::new();
        let mut got = Vec::new();
        for piece in bytes.chunks(step) {
            got.extend(d.feed_bytes(piece));
        }
        assert_eq!(got, all);
    }
}

#[test]
fn sse_frame_fields() {
    let mut d = SseDecoder::new();
    let f = d.feed("data: a\r\ndata: b\n\nevent:  x  \n\nevent: y\ndata: z\n\ntrailing");
    assert_eq!(f.len(), 2);
    assert_eq!(f[0].event, "message");
    assert_eq!(f[0].data, "ab");
    assert_eq!(f[1].event, "y");
    assert_eq!(f[1].data, "z");
    let g = d.feed("\n\n");
    assert!(g.is_empty());
}

#[test]
fn totals_accumulate_text_and_usage() {
    let mut t = StreamTotals::new();
    assert_eq!(t.apply(StreamEvent::Usage { input_tokens: 100, cached_input_tokens: 50, output_tokens: 0 }), None);
    assert_eq!(t.apply(StreamEvent::Text("Looks ".into())), Some("Looks ".to_string()));
    assert_eq!(t.apply(StreamEvent::Text("bullish".into())), Some("bullish".to_string()));
    assert_eq!(t.apply(StreamEvent::Usage { input_tokens: 0, cached_input_tokens: 0, output_tokens: 80 }), None);
    assert_eq!(t.apply(StreamEvent::Done), None);
    assert_eq!(t.full_text, "Looks bullish");
    assert_eq!(t.input_tokens, 100);
    assert_eq!(t.cached_input_tokens, 50);
    assert_eq!(t.output_tokens, 80);
}

/// The JSON reading that the application does with serde, done here by
/// calls on `serde_json::Value`.
fn data_of(kind: EventKind, json: &str) -> EventData {
    let v: serde_json::Value = match serde_json::from_str(json) {
        Ok(v) => v,
        Err(_) => return EventData::Malformed,
    };
    let counts = |u: &serde_json::Value| UsageCounts {
        input_tokens: u["input_tokens"].as_u64().unwrap_or(0),
        cache_creation_input_tokens: u["cache_creation_input_tokens"].as_u64().unwrap_or(0),
        cache_read_input_tokens: u["cache_read_input_tokens"].as_u64().unwrap_or(0),
        output_tokens: u["output_tokens"].as_u64().unwrap_or(0),
    };
    match kind {
        EventKind::ContentBlockDelta => match (v["delta"]["type"].as_str(), v["delta"]["text"].as_str()) {
            (Some("text_delta"), Some(t)) => EventData::TextDelta(t.to_string()),
            _ => EventData::OtherDelta,
        },
        EventKind::MessageStart => match v["message"].get("usage") {
            Some(u) if !u.is_null() => EventData::Usage(counts(u)),
            _ => EventData::NoUsage,
        },
        EventKind::MessageDelta => EventData::Usage(counts(&v["usage"])),
        _ => EventData::Malformed,
    }
}

fn parse_event(name: &str, json: &str) -> Option<StreamEvent> {
    let kind = event_kind(name);
    stream_event(kind, data_of(kind, json))
}

#[test]
fn parses_text_delta() {
    let e = parse_event(
        "content_block_delta",
        r#"{"type":"content_block_delta","index":0,"delta":{"type":"text_delta","text":"hello"}}"#,
    )
    .unwrap();
    assert_eq!(e, StreamEvent::Text("hello".into()));
}

#[test]
fn parses_message_start_usage() {
    let e = parse_event(
        "message_start",
        r#"{"type":"message_start","message":{"id":"x","type":"message","role":"assistant","content":[],"model":"m","stop_reason":null,"stop_sequence":null,"usage":{"input_tokens":120,"cache_creation_input_tokens":10,"cache_read_input_tokens":50,"output_tokens":0}}}"#,
    )
    .unwrap();
    assert!(matches!(e, StreamEvent::Usage { input_tokens: 130, cached_input_tokens: 50, output_tokens: 0 }));
}

#[test]
fn parses_message_stop() {
    assert_eq!(parse_event("message_stop", r#"{"type":"message_stop"}"#), Some(StreamEvent::Done));
}

#[test]
fn ignores_unknown_event() {
    assert!(parse_event("ping", "{}").is_none());
}

#[test]
fn extracts_well_formed_json() {
    let text = r#"
Some prose first.

```json
{
  "action": "buy",
  "probability_up": 0.65,
  "horizon": "4h",
  "stop_loss_pct": 2.5,
  "take_profit_pct": 5.0,
  "key_signals": ["bullish RSI divergence"],
  "citations": [{"doc": "wyckoff_book.pdf", "page": 42}]
}
```
"#;
    let a: serde_json::Value = serde_json::from_str(&json_tail(text).unwrap()).unwrap();
    assert_eq!(a["action"], "buy");
    assert!((a["probability_up"].as_f64().unwrap() - 0.65).abs() < 1e-6);
    assert_eq!(a["horizon"], "4h");
    assert_eq!(a["citations"].as_array().unwrap().len(), 1);
}

#[test]
fn returns_none_when_missing() {
    assert!(json_tail("just prose, no fence").is_none());
}

#[test]
fn picks_last_fence_when_multiple() {
    let t = r#"
```json
{"action":"hold","probability_up":0.5,"horizon":"1h"}
```
later
```json
{"action":"sell","probability_up":0.3,"horizon":"4h"}
```
"#;
    let a: serde_json::Value = serde_json::from_str(&json_tail(t).unwrap()).unwrap();
    assert_eq!(a["action"], "sell");
}

use anthropic_proxy::model::{
    BlockDelta, ContentBlock, Delta, DeltaFunction, DeltaToolCall, StreamChoice, StreamChunk,
    StreamEvent,
};
use anthropic_proxy::relay::{create_sse_stream, serialize_event, Incoming, JsonLine, SseStream};
use anthropic_proxy::sse::{Decoder, Payload};
use anthropic_proxy::stream::{
    has_room, initial_state, map_stop_reason, translate_chunk, translate_done, translate_error,
};
use serde_json::Value;

fn obj(fields: Vec<(&str, Value)>) -> Value {
    let mut map = serde_json::Map::new();
    for (name, value) in fields {
        map.insert(name.to_string(), value);
    }
    Value::Object(map)
}

fn frame(chunk: &Value) -> String {
    format!("data: {}\n\n", serde_json::to_string(chunk).unwrap())
}

fn openai_chunk(
    id: &str,
    model: &str,
    content: Option<&str>,
    finish_reason: Option<&str>,
) -> String {
    let mut delta = obj(vec![]);
    if let Some(c) = content {
        delta["content"] = Value::from(c);
    }
    let mut choice = obj(vec![("index", Value::from(0)), ("delta", delta)]);
    if let Some(fr) = finish_reason {
        choice["finish_reason"] = Value::from(fr);
    }
    frame(&obj(vec![
        ("id", Value::from(id)),
        ("model", Value::from(model)),
        ("choices", Value::from(vec![choice])),
    ]))
}

fn openai_chunk_with_reasoning(id: &str, model: &str, reasoning: &str) -> String {
    let delta = obj(vec![("reasoning", Value::from(reasoning))]);
    let choice = obj(vec![("index", Value::from(0)), ("delta", delta)]);
    frame(&obj(vec![
        ("id", Value::from(id)),
        ("model", Value::from(model)),
        ("choices", Value::from(vec![choice])),
    ]))
}

fn openai_chunk_with_tool_call(
    id: &str,
    model: &str,
    tool_id: Option<&str>,
    name: Option<&str>,
    args: Option<&str>,
    finish_reason: Option<&str>,
) -> String {
    openai_chunk_with_tool_call_at_index(id, model, 0, tool_id, name, args, finish_reason)
}

fn openai_chunk_with_tool_call_at_index(
    id: &str,
    model: &str,
    tool_index: usize,
    tool_id: Option<&str>,
    name: Option<&str>,
    args: Option<&str>,
    finish_reason: Option<&str>,
) -> String {
    let mut tc = obj(vec![("index", Value::from(tool_index))]);
    if let Some(tid) = tool_id {
        tc["id"] = Value::from(tid);
        tc["type"] = Value::from("function");
    }
    let mut func = obj(vec![]);
    if let Some(n) = name {
        func["name"] = Value::from(n);
    }
    if let Some(a) = args {
        func["arguments"] = Value::from(a);
    }
    if !func.as_object().unwrap().is_empty() {
        tc["function"] = func;
    }
    let delta = obj(vec![("tool_calls", Value::from(vec![tc]))]);
    let mut choice = obj(vec![("index", Value::from(0)), ("delta", delta)]);
    if let Some(fr) = finish_reason {
        choice["finish_reason"] = Value::from(fr);
    }
    frame(&obj(vec![
        ("id", Value::from(id)),
        ("model", Value::from(model)),
        ("choices", Value::from(vec![choice])),
    ]))
}

fn openai_done() -> String {
    "data: [DONE]\n\n".to_string()
}

fn text_at(value: &Value, name: &str) -> Option<String> {
    value.get(name).and_then(|v| v.as_str()).map(|s| s.to_string())
}

fn tool_call(value: &Value) -> DeltaToolCall {
    DeltaToolCall {
        index: value["index"].as_u64().unwrap() as usize,
        id: text_at(value, "id"),
        function: value.get("function").map(|f| DeltaFunction {
            name: text_at(f, "name"),
            arguments: text_at(f, "arguments"),
        }),
    }
}

fn choice(value: &Value) -> StreamChoice {
    let delta = &value["delta"];
    StreamChoice {
        delta: Delta {
            content: text_at(delta, "content"),
            reasoning: text_at(delta, "reasoning"),
            tool_calls: delta
                .get("tool_calls")
                .and_then(|v| v.as_array())
                .map(|calls| calls.iter().map(tool_call).collect())
                .unwrap_or_default(),
        },
        finish_reason: text_at(value, "finish_reason"),
    }
}

fn recognize(payload: Payload) -> Incoming {
    match payload {
        Payload::Done => Incoming::Done,
        Payload::Data(data) => match serde_json::from_str::<Value>(&data) {
            Ok(value) if value.get("choices").is_some() => Incoming::Chunk(StreamChunk {
                id: text_at(&value, "id"),
                model: text_at(&value, "model"),
                choices: value["choices"].as_array().unwrap().iter().map(choice).collect(),
            }),
            _ => Incoming::Unrecognized,
        },
    }
}

fn json_of(event: &StreamEvent) -> Value {
    let kind = ("type", Value::from(event.event_type()));
    match event {
        StreamEvent::MessageStart { id, model, role } => obj(vec![
            kind,
            (
                "message",
                obj(vec![
                    ("id", Value::from(id.as_str())),
                    ("model", Value::from(model.as_str())),
                    ("role", Value::from(role.as_str())),
                ]),
            ),
        ]),
        StreamEvent::ContentBlockStart { index, content_block } => {
            let mut block = obj(vec![("type", Value::from(content_block.block_type()))]);
            if let ContentBlock::ToolUse { id, name } = content_block {
                block["id"] = Value::from(id.as_str());
                block["name"] = Value::from(name.as_str());
            }
            obj(vec![kind, ("index", Value::from(*index)), ("content_block", block)])
        }
        StreamEvent::ContentBlockDelta { index, delta } => {
            let mut inner = obj(vec![("type", Value::from(delta.delta_type()))]);
            match delta {
                BlockDelta::Text(t) => inner["text"] = Value::from(t.as_str()),
                BlockDelta::Thinking(t) => inner["thinking"] = Value::from(t.as_str()),
                BlockDelta::InputJson(t) => inner["partial_json"] = Value::from(t.as_str()),
            }
            obj(vec![kind, ("index", Value::from(*index)), ("delta", inner)])
        }
        StreamEvent::ContentBlockStop { index } => {
            obj(vec![kind, ("index", Value::from(*index))])
        }
        StreamEvent::MessageDelta { stop_reason } => obj(vec![
            kind,
            ("delta", obj(vec![("stop_reason", Value::from(stop_reason.as_str()))])),
        ]),
        StreamEvent::MessageStop => obj(vec![kind]),
        StreamEvent::Error { message } => obj(vec![
            kind,
            ("error", obj(vec![("message", Value::from(message.as_str()))])),
        ]),
    }
}

fn read_back(events: Vec<StreamEvent>, values: &mut Vec<Value>) {
    for event in &events {
        let json = serde_json::to_string(&json_of(event)).unwrap();
        let text = serialize_event(event, Some(JsonLine::new(json).unwrap()));
        for segment in text.split("\n\n").filter(|s| !s.is_empty()) {
            if let Some(data_line) = segment.lines().find(|l| l.starts_with("data: ")) {
                let json_str = data_line.strip_prefix("data: ").unwrap();
                if let Ok(v) = serde_json::from_str::<Value>(json_str) {
                    values.push(v);
                }
            }
        }
    }
}

fn feed(stream: &mut SseStream, bytes: &[u8], values: &mut Vec<Value>) {
    let incoming: Vec<Incoming> = stream.receive(bytes).into_iter().map(recognize).collect();
    assert!(stream.has_room_for(&incoming));
    read_back(stream.relay(&incoming), values);
}

fn collect_events(chunks: Vec<String>, model: &str) -> Vec<Value> {
    let mut stream = create_sse_stream(model.to_string());
    let mut values = Vec::new();
    for chunk in chunks {
        feed(&mut stream, chunk.as_bytes(), &mut values);
    }
    values
}

fn types(events: &[Value]) -> Vec<&str> {
    events.iter().map(|e| e["type"].as_str().unwrap()).collect()
}

#[test]
fn text_stream_produces_message_start_content_block_and_stop() {
    let chunks = vec![
        openai_chunk("chatcmpl-1", "gpt-4o", Some("Hello"), None),
        openai_chunk("chatcmpl-1", "gpt-4o", Some(" world"), None),
        openai_chunk("chatcmpl-1", "gpt-4o", None, Some("stop")),
        openai_done(),
    ];

    let events = collect_events(chunks, "fallback");

    assert_eq!(events[0]["type"], "message_start");
    assert_eq!(events[0]["message"]["id"], "chatcmpl-1");
    assert_eq!(events[0]["message"]["model"], "gpt-4o");
    assert_eq!(events[0]["message"]["role"], "assistant");

    assert_eq!(events[1]["type"], "content_block_start");
    assert_eq!(events[1]["content_block"]["type"], "text");

    assert_eq!(events[2]["type"], "content_block_delta");
    assert_eq!(events[2]["delta"]["type"], "text_delta");
    assert_eq!(events[2]["delta"]["text"], "Hello");

    assert_eq!(events[3]["type"], "content_block_delta");
    assert_eq!(events[3]["delta"]["text"], " world");

    assert_eq!(events[4]["type"], "content_block_stop");

    assert_eq!(events[5]["type"], "message_delta");
    assert_eq!(events[5]["delta"]["stop_reason"], "end_turn");

    assert_eq!(events[6]["type"], "message_stop");
}

#[test]
fn thinking_then_text_produces_two_content_blocks() {
    let chunks = vec![
        openai_chunk_with_reasoning("chatcmpl-2", "gpt-4o", "Let me think..."),
        openai_chunk_with_reasoning("chatcmpl-2", "gpt-4o", " more thinking"),
        openai_chunk("chatcmpl-2", "gpt-4o", Some("The answer is 42"), None),
        openai_chunk("chatcmpl-2", "gpt-4o", None, Some("stop")),
        openai_done(),
    ];

    let events = collect_events(chunks, "fallback");

    assert_eq!(events[0]["type"], "message_start");
    assert_eq!(events[1]["type"], "content_block_start");
    assert_eq!(events[1]["content_block"]["type"], "thinking");
    assert_eq!(events[1]["index"], 0);
    assert_eq!(events[4]["type"], "content_block_stop");
    assert_eq!(events[4]["index"], 0);
    assert_eq!(events[5]["type"], "content_block_start");
    assert_eq!(events[5]["content_block"]["type"], "text");
    assert_eq!(events[5]["index"], 1);
}

#[test]
fn tool_call_stream_produces_tool_use_block() {
    let chunks = vec![
        openai_chunk_with_tool_call(
            "chatcmpl-3",
            "gpt-4o",
            Some("call_abc"),
            Some("read_file"),
            None,
            None,
        ),
        openai_chunk_with_tool_call("chatcmpl-3", "gpt-4o", None, None, Some("{\"path\":"), None),
        openai_chunk_with_tool_call("chatcmpl-3", "gpt-4o", None, None, Some("\"/tmp\"}"), None),
        openai_chunk("chatcmpl-3", "gpt-4o", None, Some("tool_calls")),
        openai_done(),
    ];

    let events = collect_events(chunks, "fallback");
    assert_eq!(events[1]["content_block"]["type"], "tool_use");
    assert_eq!(events[1]["content_block"]["id"], "call_abc");
    assert_eq!(events[5]["delta"]["stop_reason"], "tool_use");
}

#[test]
fn done_without_finish_reason_still_produces_message_stop() {
    let chunks = vec![openai_chunk("chatcmpl-4", "gpt-4o", Some("hi"), None), openai_done()];
    let events = collect_events(chunks, "fallback");
    assert_eq!(events.last().unwrap()["type"], "message_stop");
}

#[test]
fn fallback_model_used_when_upstream_omits_model() {
    let delta = obj(vec![("content", Value::from("hey"))]);
    let choice = obj(vec![("index", Value::from(0)), ("delta", delta)]);
    let chunk = obj(vec![("choices", Value::from(vec![choice]))]);
    let chunks = vec![
        format!("data: {}\n\n", serde_json::to_string(&chunk).unwrap()),
        openai_chunk("id", "gpt-4o", None, Some("stop")),
        openai_done(),
    ];
    let events = collect_events(chunks, "my-fallback-model");
    assert_eq!(events[0]["message"]["model"], "my-fallback-model");
}

#[test]
fn empty_content_chunks_are_not_emitted() {
    let chunks = vec![
        openai_chunk("chatcmpl-5", "gpt-4o", Some(""), None),
        openai_chunk("chatcmpl-5", "gpt-4o", Some("hello"), None),
        openai_chunk("chatcmpl-5", "gpt-4o", None, Some("stop")),
        openai_done(),
    ];
    let events = collect_events(chunks, "fallback");
    let text_deltas: Vec<_> = events
        .iter()
        .filter(|e| e["type"] == "content_block_delta" && e["delta"]["type"] == "text_delta")
        .collect();
    assert_eq!(text_deltas.len(), 1);
    assert_eq!(text_deltas[0]["delta"]["text"], "hello");
}

#[test]
fn stream_error_produces_error_event_and_stops() {
    let mut stream = create_sse_stream("fallback".to_string());
    let mut events = Vec::new();
    let first = openai_chunk("chatcmpl-6", "gpt-4o", Some("start"), None);
    feed(&mut stream, first.as_bytes(), &mut events);
    read_back(stream.fail("test error"), &mut events);

    let error_events: Vec<_> = events.iter().filter(|e| e["type"] == "error").collect();
    assert_eq!(error_events.len(), 1);
    assert_eq!(error_events[0]["error"]["message"], "Stream error: test error");

    let before = events.len();
    let late = openai_chunk("chatcmpl-6", "gpt-4o", Some("late"), None);
    feed(&mut stream, late.as_bytes(), &mut events);
    read_back(stream.relay(&vec![Incoming::Done]), &mut events);
    read_back(stream.fail("again"), &mut events);
    assert_eq!(events.len(), before);
}

#[test]
fn chunked_delivery_handles_split_sse_frames() {
    let full_chunk = openai_chunk("chatcmpl-7", "gpt-4o", Some("split"), None);
    let mid = full_chunk.len() / 2;
    let part1 = full_chunk[..mid].to_string();
    let part2 = format!(
        "{}{}{}",
        &full_chunk[mid..],
        openai_chunk("chatcmpl-7", "gpt-4o", None, Some("stop")),
        openai_done()
    );
    let events = collect_events(vec![part1, part2], "fallback");
    let text_deltas: Vec<_> = events
        .iter()
        .filter(|e| e["type"] == "content_block_delta" && e["delta"]["type"] == "text_delta")
        .collect();
    assert_eq!(text_deltas.len(), 1);
    assert_eq!(text_deltas[0]["delta"]["text"], "split");
}

#[test]
fn text_then_tool_call_produces_two_blocks() {
    let chunks = vec![
        openai_chunk("chatcmpl-8", "gpt-4o", Some("I'll read that file."), None),
        openai_chunk_with_tool_call(
            "chatcmpl-8",
            "gpt-4o",
            Some("call_xyz"),
            Some("read_file"),
            None,
            None,
        ),
        openai_chunk_with_tool_call(
            "chatcmpl-8",
            "gpt-4o",
            None,
            None,
            Some("{\"path\":\"/etc\"}"),
            None,
        ),
        openai_chunk("chatcmpl-8", "gpt-4o", None, Some("tool_calls")),
        openai_done(),
    ];
    let events = collect_events(chunks, "fallback");
    let block_starts: Vec<_> =
        events.iter().filter(|e| e["type"] == "content_block_start").collect();
    assert_eq!(block_starts.len(), 2);
    assert_eq!(block_starts[0]["content_block"]["type"], "text");
    assert_eq!(block_starts[1]["content_block"]["type"], "tool_use");
}

#[test]
fn scenario_a_tool_call_args_not_misassigned_on_interleave() {
    let chunks = vec![
        openai_chunk_with_tool_call_at_index(
            "chatcmpl-99",
            "m",
            0,
            Some("call_read"),
            Some("read_file"),
            None,
            None,
        ),
        openai_chunk_with_tool_call_at_index(
            "chatcmpl-99",
            "m",
            1,
            Some("call_search"),
            Some("search_web"),
            None,
            None,
        ),
        // Too late: the block of the first call is closed.
        openai_chunk_with_tool_call_at_index(
            "chatcmpl-99",
            "m",
            0,
            None,
            None,
            Some(r#"{"path":"/etc"}"#),
            None,
        ),
        openai_chunk_with_tool_call_at_index(
            "chatcmpl-99",
            "m",
            1,
            None,
            None,
            Some(r#"{}"#),
            None,
        ),
        openai_chunk("chatcmpl-99", "m", None, Some("tool_calls")),
        openai_done(),
    ];

    let events = collect_events(chunks, "fallback");

    let block_starts: Vec<_> = events
        .iter()
        .filter(|e| e["type"] == "content_block_start")
        .enumerate()
        .map(|(i, e)| {
            (
                i,
                e["index"].as_u64().unwrap(),
                e["content_block"]["id"].as_str().unwrap().to_string(),
            )
        })
        .collect();
    assert_eq!(block_starts.len(), 2);

    assert_eq!(block_starts[0].1, 0);
    assert_eq!(block_starts[0].2, "call_read");
    assert_eq!(block_starts[1].1, 1);
    assert_eq!(block_starts[1].2, "call_search");

    let read_deltas = events
        .iter()
        .filter(|e| {
            e["type"] == "content_block_delta"
                && e["index"] == 0
                && e["delta"]["type"] == "input_json_delta"
        })
        .count();
    assert_eq!(
        read_deltas, 0,
        "call_read (index0) must have zero input_json deltas — interleaved args dropped, not misassigned"
    );

    let search_deltas = events
        .iter()
        .filter(|e| {
            e["type"] == "content_block_delta" && e["delta"]["type"] == "input_json_delta"
        })
        .count();
    assert_eq!(search_deltas, 1, "call_search (index1) must have exactly one input_json delta");

    assert_eq!(events.last().unwrap()["type"], "message_stop");
}

#[test]
fn scenario_a_tool_call_args_correct_order_still_works() {
    let chunks = vec![
        openai_chunk_with_tool_call_at_index(
            "chatcmpl-99",
            "m",
            0,
            Some("call_0"),
            Some("read_file"),
            None,
            None,
        ),
        openai_chunk_with_tool_call_at_index(
            "chatcmpl-99",
            "m",
            0,
            None,
            None,
            Some(r#"{"path":"/tmp"}"#),
            None,
        ),
        openai_chunk_with_tool_call_at_index(
            "chatcmpl-99",
            "m",
            1,
            Some("call_1"),
            Some("search_web"),
            None,
            None,
        ),
        openai_chunk_with_tool_call_at_index(
            "chatcmpl-99",
            "m",
            1,
            None,
            None,
            Some(r#"{}"#),
            None,
        ),
        openai_chunk("chatcmpl-99", "m", None, Some("tool_calls")),
        openai_done(),
    ];

    let events = collect_events(chunks, "fallback");

    let block0_deltas: Vec<_> = events
        .iter()
        .filter(|e| e["type"] == "content_block_delta" && e["index"] == 0)
        .collect();
    assert_eq!(
        block0_deltas.len(),
        1,
        "call_read (index0) must get its args in correct order"
    );
    assert_eq!(block0_deltas[0]["delta"]["partial_json"], r#"{"path":"/tmp"}"#);

    let block1_deltas: Vec<_> = events
        .iter()
        .filter(|e| e["type"] == "content_block_delta" && e["index"] == 1)
        .collect();
    assert_eq!(
        block1_deltas.len(),
        1,
        "call_search (index1) must get its args in correct order"
    );
}

#[test]
fn scenario_b_content_after_finish_gets_new_block() {
    let chunks = vec![
        openai_chunk("chatcmpl-100", "m", Some("Hello"), None),
        openai_chunk("chatcmpl-100", "m", None, Some("stop")),
        openai_chunk("chatcmpl-100", "m", Some(" world"), None),
        openai_done(),
    ];

    let events = collect_events(chunks, "fallback");
    let types = types(&events);

    let stop0 = types.iter().position(|t| *t == "content_block_stop").unwrap();
    let block_starts_after: Vec<_> = events[stop0 + 1..]
        .iter()
        .filter(|e| e["type"] == "content_block_start")
        .collect();
    assert_eq!(
        block_starts_after.len(),
        1,
        "must open a NEW content block for content arriving after finish_reason"
    );
    assert_eq!(
        block_starts_after[0]["index"], 1,
        "the new block must have a fresh index (1), not the old (0)"
    );

    let late_delta: Vec<_> = events
        .iter()
        .filter(|e| e["type"] == "content_block_delta" && e["delta"]["text"] == " world")
        .collect();
    assert_eq!(late_delta.len(), 1);
    assert_eq!(
        late_delta[0]["index"], 1,
        "' world' delta must be at the NEW block index (1), not the old closed block"
    );

    assert_eq!(events.last().unwrap()["type"], "message_stop");
    assert_eq!(types.last().unwrap(), &"message_stop");
}

#[test]
fn scenario_c_duplicate_finish_reason_is_idempotent() {
    let chunks = vec![
        openai_chunk("chatcmpl-101", "m", Some("Hello"), None),
        openai_chunk("chatcmpl-101", "m", None, Some("stop")),
        openai_chunk("chatcmpl-101", "m", None, Some("stop")),
        openai_done(),
    ];

    let events = collect_events(chunks, "fallback");
    let types = types(&events);

    let stop_count = types.iter().filter(|t| **t == "content_block_stop").count();
    assert_eq!(
        stop_count, 1,
        "duplicate finish_reason must NOT produce a second content_block_stop"
    );

    let delta_count = types.iter().filter(|t| **t == "message_delta").count();
    assert_eq!(
        delta_count, 1,
        "duplicate finish_reason must NOT produce a second message_delta"
    );

    assert_eq!(events.last().unwrap()["type"], "message_stop");

    assert_eq!(
        types,
        &[
            "message_start",
            "content_block_start",
            "content_block_delta",
            "content_block_stop",
            "message_delta",
            "message_stop"
        ],
        "duplicate finish_reason must produce exactly the same events as a single finish"
    );
}

#[test]
fn every_cut_of_a_stream_gives_the_same_events() {
    let whole = format!(
        "{}{}{}{}{}",
        openai_chunk_with_reasoning("chatcmpl-9", "m", "hm"),
        openai_chunk("chatcmpl-9", "m", Some("a\n\nb"), None),
        openai_chunk_with_tool_call("chatcmpl-9", "m", Some("c"), Some("f"), Some("{}"), None),
        openai_chunk("chatcmpl-9", "m", None, Some("length")),
        openai_done()
    );
    let expected = collect_events(vec![whole.clone()], "fallback");
    assert_eq!(
        types(&expected),
        &[
            "message_start",
            "content_block_start",
            "content_block_delta",
            "content_block_stop",
            "content_block_start",
            "content_block_delta",
            "content_block_stop",
            "content_block_start",
            "content_block_delta",
            "content_block_stop",
            "message_delta",
            "message_stop"
        ]
    );
    assert_eq!(expected[10]["delta"]["stop_reason"], "max_tokens");
    for cut in 0..whole.len() {
        let parts = vec![whole[..cut].to_string(), whole[cut..].to_string()];
        assert_eq!(collect_events(parts, "fallback"), expected);
    }
}

#[test]
fn data_that_is_no_chunk_is_ignored() {
    let chunks = vec![
        "data: not json\n\n".to_string(),
        "data: {\"object\":\"ping\"}\n\n".to_string(),
        openai_chunk("chatcmpl-10", "m", Some("x"), None),
        openai_done(),
    ];
    let events = collect_events(chunks, "fallback");
    assert_eq!(
        types(&events),
        &[
            "message_start",
            "content_block_start",
            "content_block_delta",
            "content_block_stop",
            "message_stop"
        ]
    );
}

#[test]
fn done_closes_the_open_block_without_message_delta() {
    let chunks = vec![
        openai_chunk("chatcmpl-11", "m", Some("Hello"), None),
        openai_chunk("chatcmpl-11", "m", None, Some("stop")),
        openai_chunk("chatcmpl-11", "m", Some(" world"), None),
        openai_done(),
    ];
    let events = collect_events(chunks, "fallback");
    assert_eq!(
        types(&events)[4..],
        [
            "message_delta",
            "content_block_start",
            "content_block_delta",
            "content_block_stop",
            "message_stop"
        ]
    );
}

fn bare_chunk(content: Option<&str>, calls: Vec<DeltaToolCall>, finish: Option<&str>) -> StreamChunk {
    StreamChunk {
        id: Some("id".to_string()),
        model: Some("m".to_string()),
        choices: vec![StreamChoice {
            delta: Delta {
                content: content.map(|s| s.to_string()),
                reasoning: None,
                tool_calls: calls,
            },
            finish_reason: finish.map(|s| s.to_string()),
        }],
    }
}

#[test]
fn a_chunk_without_a_choice_makes_nothing() {
    let mut state = initial_state("fallback".to_string());
    let chunk = StreamChunk { id: None, model: None, choices: vec![] };
    assert!(has_room(&state, &chunk));
    assert!(translate_chunk(&mut state, &chunk).is_empty());
}

#[test]
fn an_id_and_a_model_that_are_missing_are_filled_in() {
    let mut state = initial_state("fallback".to_string());
    let mut chunk = bare_chunk(None, vec![], None);
    chunk.id = None;
    chunk.model = None;
    let events = translate_chunk(&mut state, &chunk);
    assert_eq!(events.len(), 1);
    match &events[0] {
        StreamEvent::MessageStart { id, model, role } => {
            assert_eq!(id, "");
            assert_eq!(model, "fallback");
            assert_eq!(role, "assistant");
        }
        _ => panic!("expected message_start"),
    }
}

#[test]
fn a_tool_call_without_an_id_opens_no_block() {
    let mut state = initial_state("fallback".to_string());
    let call = DeltaToolCall {
        index: 3,
        id: None,
        function: Some(DeltaFunction { name: Some("f".to_string()), arguments: Some("{}".to_string()) }),
    };
    let events = translate_chunk(&mut state, &bare_chunk(None, vec![call], None));
    assert_eq!(events.len(), 1);
    assert_eq!(events[0].event_type(), "message_start");
}

#[test]
fn done_always_ends_with_message_stop() {
    let mut state = initial_state("fallback".to_string());
    let events = translate_done(&mut state);
    assert_eq!(events.len(), 1);
    assert_eq!(events[0].event_type(), "message_stop");
}

#[test]
fn an_error_is_one_event() {
    let events = translate_error("boom".to_string());
    assert_eq!(events.len(), 1);
    match &events[0] {
        StreamEvent::Error { message } => assert_eq!(message, "boom"),
        _ => panic!("expected error"),
    }
}

#[test]
fn finish_reasons_have_their_client_names() {
    assert_eq!(map_stop_reason("stop"), "end_turn");
    assert_eq!(map_stop_reason("tool_calls"), "tool_use");
    assert_eq!(map_stop_reason("length"), "max_tokens");
    assert_eq!(map_stop_reason("content_filter"), "end_turn");
}

#[test]
fn an_event_on_the_wire_has_its_type_and_its_data() {
    let stop = StreamEvent::MessageStop;
    assert_eq!(
        serialize_event(&stop, JsonLine::new("{\"type\":\"message_stop\"}".to_string())),
        "event: message_stop\ndata: {\"type\":\"message_stop\"}\n\n"
    );
    assert_eq!(serialize_event(&stop, None), "event: message_stop\ndata: \n\n");
}

#[test]
fn an_event_on_the_wire_reads_back() {
    let event = StreamEvent::ContentBlockStop { index: 2 };
    let json = serde_json::to_string(&json_of(&event)).unwrap();
    let mut decoder = Decoder::new();
    let read = decoder.push_text(&serialize_event(&event, JsonLine::new(json.clone())));
    assert_eq!(read.len(), 1);
    assert!(matches!(&read[0], Payload::Data(data) if *data == json));
    assert!(decoder.push_text("").is_empty());
    assert_eq!(decoder.push_text(&serialize_event(&event, JsonLine::new(json))).len(), 1);
}

#[test]
fn single_bytes_make_the_same_events() {
    let whole = format!(
        "{}{}{}",
        openai_chunk("chatcmpl-12", "m", Some("plain"), None),
        openai_chunk("chatcmpl-12", "m", None, Some("stop")),
        openai_done()
    );
    let pieces: Vec<String> = whole.chars().map(|c| c.to_string()).collect();
    assert_eq!(collect_events(pieces, "f"), collect_events(vec![whole], "f"));
}

#[test]
fn all_text_comes_through_in_order() {
    let chunks = vec![
        openai_chunk_with_reasoning("chatcmpl-13", "m", "first "),
        openai_chunk("chatcmpl-13", "m", Some("one "), None),
        openai_chunk_with_reasoning("chatcmpl-13", "m", "second"),
        openai_chunk_with_tool_call("chatcmpl-13", "m", Some("c"), Some("f"), Some("{}"), None),
        openai_chunk("chatcmpl-13", "m", Some("two "), Some("stop")),
        openai_chunk("chatcmpl-13", "m", Some("three"), None),
        openai_done(),
    ];
    let events = collect_events(chunks, "f");
    let joined = |name: &str| -> String {
        events
            .iter()
            .filter_map(|e| e["delta"].get(name).and_then(|t| t.as_str()))
            .collect()
    };
    assert_eq!(joined("text"), "one two three");
    assert_eq!(joined("thinking"), "first second");
    assert_eq!(joined("partial_json"), "{}");
    let starts: Vec<u64> = events
        .iter()
        .filter(|e| e["type"] == "content_block_start")
        .map(|e| e["index"].as_u64().unwrap())
        .collect();
    assert_eq!(starts, [0, 1, 2, 3, 4, 5]);
}

#[test]
fn an_event_on_the_wire_is_one_frame_whatever_its_text_holds() {
    let mut whole = String::new();
    let mut frames = Vec::new();
    for text in ["plain", "a\n\nb", "\r\n", "data: [DONE]\n\n", ""] {
        let event = StreamEvent::ContentBlockDelta {
            index: 0,
            delta: BlockDelta::Text(text.to_string()),
        };
        let json = serde_json::to_string(&json_of(&event)).unwrap();
        let on_wire = serialize_event(&event, JsonLine::new(json));
        let data: Vec<&str> =
            on_wire.lines().filter_map(|line| line.strip_prefix("data: ")).collect();
        assert_eq!(data.len(), 1);
        assert_eq!(serde_json::from_str::<Value>(data[0]).unwrap(), json_of(&event));
        assert!(on_wire.ends_with("\n\n"));
        assert_eq!(on_wire.matches('\n').count(), 3);
        assert_eq!(on_wire.find("\n\n"), Some(on_wire.len() - 2));
        frames.push(on_wire[..on_wire.len() - 2].to_string());
        whole.push_str(&on_wire);
    }
    let apart: Vec<&str> = whole.split("\n\n").collect();
    assert_eq!(apart[..frames.len()], frames);
    assert_eq!(apart[frames.len()..], [""]);
    let mut decoder = Decoder::new();
    assert_eq!(decoder.push_text(&whole).len(), frames.len());
}

#[test]
fn json_for_the_wire_is_on_one_line() {
    assert!(JsonLine::new("{\"a\":\"\\n\"}".to_string()).is_some());
    assert!(JsonLine::new(String::new()).is_some());
    assert!(JsonLine::new("{\n}".to_string()).is_none());
    assert!(JsonLine::new("{}\n".to_string()).is_none());
}

fn events_of_pieces(pieces: Vec<Vec<u8>>) -> Vec<Value> {
    let mut relay = create_sse_stream("fallback".to_string());
    let mut events = Vec::new();
    for piece in pieces {
        let incoming: Vec<Incoming> = relay.receive(&piece).into_iter().map(recognize).collect();
        assert!(relay.has_room_for(&incoming));
        for event in relay.relay(&incoming) {
            events.push(json_of(&event));
        }
    }
    events
}

#[test]
fn cutting_bytes_between_characters_changes_no_event() {
    let mut text = openai_chunk("c", "m", Some("h\u{e9}llo \u{1f600}"), None);
    text.push_str(&openai_chunk("c", "m", None, Some("stop")));
    text.push_str(&openai_done());
    let whole = events_of_pieces(vec![text.as_bytes().to_vec()]);
    let one_by_one = text.chars().map(|c| c.to_string().into_bytes()).collect();
    assert_eq!(whole.len(), 6);
    assert_eq!(events_of_pieces(one_by_one), whole);
}

#[test]
fn silent_frames_and_an_unterminated_end_change_no_event() {
    let first = openai_chunk("c", "m", Some("hi"), None);
    let second = openai_chunk("c", "m", None, Some("stop"));
    let plain = events_of_pieces(vec![format!("{}{}", first, second).into_bytes()]);
    for silent in [": ping\n\n", "data: {not json\n\n", "event: x\nretry: 3\n\n", " \t\n\n"] {
        let text = format!("{}{}{}", first, silent, second);
        assert_eq!(events_of_pieces(vec![text.into_bytes()]), plain);
    }
    let text = format!("{}{}data: [DONE]\n", first, second);
    assert_eq!(events_of_pieces(vec![text.into_bytes()]), plain);
}

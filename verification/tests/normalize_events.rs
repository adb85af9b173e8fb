use agent_stream::events::{CanonicalEvent, ContentBlock};
use agent_stream::json::JsonValue;
use agent_stream::normalize::{
    apply_raw_line, extract_text_content, extract_tool_result_content, parse_usage_data, NormState,
};

fn obj(pairs: Vec<(&str, JsonValue)>) -> JsonValue {
    JsonValue::Obj(pairs.into_iter().map(|(k, v)| (k.to_string(), v)).collect())
}

fn s(v: &str) -> JsonValue {
    JsonValue::Str(v.to_string())
}

fn n(v: u64) -> JsonValue {
    JsonValue::Num(v.to_string())
}

#[test]
fn test_extract_text_content_direct() {
    let msg = obj(vec![("type", s("text")), ("text", s("Hello, world!"))]);
    assert_eq!(extract_text_content(&msg), Some("Hello, world!".to_string()));
}

#[test]
fn test_extract_text_content_nested() {
    let msg = obj(vec![
        ("type", s("assistant")),
        (
            "message",
            obj(vec![(
                "content",
                JsonValue::Arr(vec![
                    obj(vec![("type", s("text")), ("text", s("Part 1 "))]),
                    obj(vec![("type", s("text")), ("text", s("Part 2"))]),
                ]),
            )]),
        ),
    ]);
    assert_eq!(extract_text_content(&msg), Some("Part 1 Part 2".to_string()));
}

#[test]
fn test_extract_text_content_none() {
    let msg = obj(vec![("type", s("tool_use")), ("id", s("call-123"))]);
    assert_eq!(extract_text_content(&msg), None);
}

#[test]
fn test_parse_usage_data() {
    let usage_json = obj(vec![
        ("input_tokens", n(100)),
        ("output_tokens", n(200)),
        ("cache_read_input_tokens", n(50)),
        ("cache_creation_input_tokens", n(25)),
    ]);
    let usage = parse_usage_data(&usage_json);
    assert_eq!(usage.input_tokens, 100);
    assert_eq!(usage.output_tokens, 200);
    assert_eq!(usage.cache_read_input_tokens, 50);
    assert_eq!(usage.cache_creation_input_tokens, 25);
}

#[test]
fn test_parse_usage_data_camel_case() {
    let usage_json = obj(vec![
        ("inputTokens", n(150)),
        ("outputTokens", n(300)),
        ("cacheReadInputTokens", n(75)),
    ]);
    let usage = parse_usage_data(&usage_json);
    assert_eq!(usage.input_tokens, 150);
    assert_eq!(usage.output_tokens, 300);
    assert_eq!(usage.cache_read_input_tokens, 75);
}

#[test]
fn test_parse_usage_data_openai_format() {
    let usage_json = obj(vec![("prompt_tokens", n(500)), ("completion_tokens", n(100))]);
    let usage = parse_usage_data(&usage_json);
    assert_eq!(usage.input_tokens, 500);
    assert_eq!(usage.output_tokens, 100);
}

#[test]
fn test_extract_tool_result_content_string() {
    let block = obj(vec![
        ("type", s("tool_result")),
        ("tool_use_id", s("call-1")),
        ("content", s("File contents here")),
    ]);
    assert_eq!(extract_tool_result_content(&block), "File contents here");
}

#[test]
fn test_extract_tool_result_content_array() {
    let block = obj(vec![
        ("type", s("tool_result")),
        ("tool_use_id", s("call-1")),
        (
            "content",
            JsonValue::Arr(vec![
                obj(vec![("type", s("text")), ("text", s("Line 1"))]),
                obj(vec![("type", s("text")), ("text", s("Line 2"))]),
            ]),
        ),
    ]);
    assert_eq!(extract_tool_result_content(&block), "Line 1\nLine 2");
}

#[test]
fn usage_overflow_reads_zero() {
    let usage = parse_usage_data(&obj(vec![
        ("input_tokens", n(u64::MAX)),
        ("output_tokens", JsonValue::Num("18446744073709551616".to_string())),
    ]));
    assert_eq!(usage.input_tokens, u64::MAX);
    assert_eq!(usage.output_tokens, 0);
}

#[test]
fn text_line_appends_transcript_and_block() {
    let mut st = NormState::new();
    let (counted, evs) =
        apply_raw_line(&mut st, br#"{"type":"text","text":"Hello, world!"}"#);
    assert!(counted);
    assert_eq!(st.transcript, "Hello, world!");
    assert_eq!(st.content_blocks.len(), 1);
    assert!(matches!(&st.content_blocks[0], ContentBlock::Text { text } if text == "Hello, world!"));
    assert_eq!(evs.len(), 1);
    assert!(matches!(&evs[0], CanonicalEvent::Chunk { content } if content == "Hello, world!"));
}

#[test]
fn no_content_placeholder_is_suppressed() {
    let mut st = NormState::new();
    let (counted, evs) = apply_raw_line(&mut st, br#"{"type":"text","text":"(no content)"}"#);
    assert!(counted);
    assert_eq!(st.transcript, "");
    assert!(st.content_blocks.is_empty());
    assert!(evs.is_empty());
}

#[test]
fn blank_and_meta_lines_do_not_count() {
    let mut st = NormState::new();
    let (counted1, evs1) = apply_raw_line(&mut st, b"   \r");
    let (counted2, evs2) =
        apply_raw_line(&mut st, br#"{"_run_meta":{"worktree":"w1"}}"#);
    assert!(!counted1 && !counted2);
    assert!(evs1.is_empty() && evs2.is_empty());
    assert_eq!(st.transcript, "");
}

#[test]
fn unparsable_line_counts_but_changes_nothing() {
    let mut st = NormState::new();
    let (counted, evs) = apply_raw_line(&mut st, b"this is not json");
    assert!(counted);
    assert!(evs.is_empty());
    assert_eq!(st.transcript, "");
}

#[test]
fn session_id_first_non_empty_wins() {
    let mut st = NormState::new();
    apply_raw_line(&mut st, br#"{"type":"text","text":"a","sessionID":"abc"}"#);
    assert_eq!(st.backend_session_id, "abc");
    apply_raw_line(&mut st, br#"{"type":"text","text":"b","sessionID":"def"}"#);
    assert_eq!(st.backend_session_id, "abc");
}

#[test]
fn session_id_from_part() {
    let mut st = NormState::new();
    apply_raw_line(
        &mut st,
        br#"{"type":"text","part":{"text":"hi","sessionID":"ses_9"}}"#,
    );
    assert_eq!(st.backend_session_id, "ses_9");
}

#[test]
fn tool_use_with_completed_result() {
    let mut st = NormState::new();
    let (_, evs) = apply_raw_line(
        &mut st,
        br#"{"type":"tool_use","part":{"callID":"c1","tool":"read","state":{"status":"completed","input":{"path":"f"},"output":"data"}}}"#,
    );
    assert_eq!(st.tool_calls.len(), 1);
    assert_eq!(st.tool_calls[0].id, "c1");
    assert_eq!(st.tool_calls[0].name, "read");
    assert_eq!(st.tool_calls[0].output.as_deref(), Some("data"));
    assert_eq!(evs.len(), 3);
    assert!(matches!(&evs[0], CanonicalEvent::ToolUse { id, name, .. } if id == "c1" && name == "read"));
    assert!(matches!(&evs[1], CanonicalEvent::ToolBlock { tool_call_id } if tool_call_id == "c1"));
    assert!(matches!(&evs[2], CanonicalEvent::ToolResult { tool_use_id, output } if tool_use_id == "c1" && output == "data"));
}

#[test]
fn long_tool_output_truncated() {
    let long: String = "a".repeat(2100);
    let line = format!(
        "{{\"type\":\"tool_use\",\"part\":{{\"callID\":\"c1\",\"tool\":\"read\",\"state\":{{\"status\":\"completed\",\"output\":\"{}\"}}}}}}",
        long
    );
    let mut st = NormState::new();
    apply_raw_line(&mut st, line.as_bytes());
    let out = st.tool_calls[0].output.clone().unwrap();
    let expected = format!("{}...(truncated)", "a".repeat(2000));
    assert_eq!(out, expected);
}

#[test]
fn tool_result_fills_existing_call() {
    let mut st = NormState::new();
    apply_raw_line(
        &mut st,
        br#"{"type":"tool_use","id":"c7","name":"grep","input":{"q":"x"}}"#,
    );
    assert_eq!(st.tool_calls[0].output, None);
    let (_, evs) = apply_raw_line(
        &mut st,
        br#"{"type":"tool_result","tool_use_id":"c7","content":"match"}"#,
    );
    assert_eq!(st.tool_calls[0].output.as_deref(), Some("match"));
    assert!(matches!(&evs[0], CanonicalEvent::ToolResult { tool_use_id, output } if tool_use_id == "c7" && output == "match"));
}

#[test]
fn non_string_tool_result_rendered_as_json() {
    let mut st = NormState::new();
    apply_raw_line(&mut st, br#"{"type":"tool_use","id":"c8","name":"ls","input":{}}"#);
    apply_raw_line(
        &mut st,
        br#"{"type":"tool_result","tool_use_id":"c8","content":{"files":["a","b"],"n":2}}"#,
    );
    assert_eq!(
        st.tool_calls[0].output.as_deref(),
        Some(r#"{"files":["a","b"],"n":2}"#)
    );
}

#[test]
fn thinking_line_records_block_only() {
    let mut st = NormState::new();
    let (_, evs) = apply_raw_line(&mut st, br#"{"type":"thinking","thinking":"hmm"}"#);
    assert_eq!(st.transcript, "");
    assert!(matches!(&st.content_blocks[0], ContentBlock::Thinking { thinking } if thinking == "hmm"));
    assert!(matches!(&evs[0], CanonicalEvent::Thinking { content } if content == "hmm"));
}

#[test]
fn user_tool_result_joins_by_id() {
    let mut st = NormState::new();
    apply_raw_line(&mut st, br#"{"type":"tool_use","id":"u1","name":"read","input":{}}"#);
    apply_raw_line(
        &mut st,
        br#"{"type":"user","message":{"content":[{"type":"tool_result","tool_use_id":"u1","content":"ok"}]}}"#,
    );
    assert_eq!(st.tool_calls[0].output.as_deref(), Some("ok"));
}

#[test]
fn result_line_completes_and_reads_usage() {
    let mut st = NormState::new();
    apply_raw_line(
        &mut st,
        br#"{"type":"result","result":"Answer","usage":{"input_tokens":3,"output_tokens":4}}"#,
    );
    assert!(st.completed);
    assert_eq!(st.transcript, "Answer");
    let u = st.usage.unwrap();
    assert_eq!(u.input_tokens, 3);
    assert_eq!(u.output_tokens, 4);
}

#[test]
fn step_finish_stop_reason_completes() {
    let mut st = NormState::new();
    apply_raw_line(
        &mut st,
        br#"{"type":"step_finish","part":{"reason":"stop","tokens":{"input_tokens":5,"output_tokens":7}}}"#,
    );
    assert!(st.completed);
    let u = st.usage.unwrap();
    assert_eq!(u.input_tokens, 5);
    assert_eq!(u.output_tokens, 7);
}

#[test]
fn step_finish_other_reason_does_not_complete() {
    let mut st = NormState::new();
    apply_raw_line(
        &mut st,
        br#"{"type":"step_finish","part":{"reason":"tool_use"}}"#,
    );
    assert!(!st.completed);
}

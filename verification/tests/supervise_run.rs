use agent_stream::events::CanonicalEvent;
use agent_stream::json::JsonValue;
use agent_stream::supervise::{
    into_response, supervisor_step, RunState, Terminal, DEAD_PROCESS_TIMEOUT_MS,
    INTERACTIVE_STALL_TIMEOUT_MS, STARTUP_TIMEOUT_MS,
};
use agent_stream::tail::TailCursor;

fn lines_of(raw: &[&str]) -> Vec<Vec<u8>> {
    raw.iter().map(|l| l.as_bytes().to_vec()).collect()
}

#[test]
fn startup_timeout_cancels_with_empty_transcript() {
    let mut st = RunState::new(0);
    let r = supervisor_step(&mut st, &Vec::new(), true, true, STARTUP_TIMEOUT_MS + 1);
    assert_eq!(r.outcome, Some(Terminal::Cancelled));
    assert!(!r.kill_process);
    assert!(r.events.is_empty());
    let resp = into_response(st.norm, Terminal::Cancelled);
    assert_eq!(resp.content, "");
    assert!(resp.cancelled);
}

#[test]
fn just_under_startup_timeout_continues() {
    let mut st = RunState::new(0);
    let r = supervisor_step(&mut st, &Vec::new(), true, true, STARTUP_TIMEOUT_MS);
    assert_eq!(r.outcome, None);
}

#[test]
fn completion_signal_wins() {
    let mut st = RunState::new(0);
    let lines = lines_of(&[r#"{"type":"result","result":"done now"}"#]);
    let r = supervisor_step(&mut st, &lines, true, true, 100);
    assert_eq!(r.outcome, Some(Terminal::Completed));
    assert!(matches!(r.events.last().unwrap(), CanonicalEvent::Done));
    let resp = into_response(st.norm, Terminal::Completed);
    assert_eq!(resp.content, "done now");
    assert!(!resp.cancelled);
}

#[test]
fn external_cancellation_mid_stream() {
    let mut st = RunState::new(0);
    let lines = lines_of(&[r#"{"type":"text","text":"hi"}"#]);
    let r1 = supervisor_step(&mut st, &lines, true, true, 100);
    assert_eq!(r1.outcome, None);
    // The registry entry disappears: cancelled on the next step, although
    // the process is still alive.
    let r2 = supervisor_step(&mut st, &Vec::new(), false, true, 200);
    assert_eq!(r2.outcome, Some(Terminal::Cancelled));
    assert!(r2.events.is_empty());
}

#[test]
fn dead_process_with_output_completes() {
    let mut st = RunState::new(0);
    let lines = lines_of(&[r#"{"type":"text","text":"partial answer"}"#]);
    supervisor_step(&mut st, &lines, true, true, 100);
    let r = supervisor_step(
        &mut st,
        &Vec::new(),
        true,
        false,
        100 + DEAD_PROCESS_TIMEOUT_MS + 1,
    );
    assert_eq!(r.outcome, Some(Terminal::Completed));
    let resp = into_response(st.norm, Terminal::Completed);
    assert_eq!(resp.content, "partial answer");
}

#[test]
fn dead_process_without_content_cancels() {
    let mut st = RunState::new(0);
    // A line that counts as output but carries no content.
    let lines = lines_of(&["not json at all"]);
    supervisor_step(&mut st, &lines, true, true, 100);
    let r = supervisor_step(
        &mut st,
        &Vec::new(),
        true,
        false,
        100 + DEAD_PROCESS_TIMEOUT_MS + 1,
    );
    assert_eq!(r.outcome, Some(Terminal::Cancelled));
}

#[test]
fn interactive_stall_synthesizes_question() {
    let mut st = RunState::new(0);
    let lines = lines_of(&[r#"{"type":"text","text":"Which file should I edit?"}"#]);
    supervisor_step(&mut st, &lines, true, true, 1000);
    let before_calls = st.norm.tool_calls.len();
    let r = supervisor_step(
        &mut st,
        &Vec::new(),
        true,
        true,
        1000 + INTERACTIVE_STALL_TIMEOUT_MS + 1,
    );
    assert_eq!(r.outcome, Some(Terminal::StalledAskingUser));
    assert!(r.kill_process);
    assert_eq!(st.norm.tool_calls.len(), before_calls + 1);
    let ask = st.norm.tool_calls.last().unwrap();
    assert_eq!(ask.name, "AskUserQuestion");
    assert!(ask.id.starts_with("opencode_ask_"));
    match &ask.input {
        JsonValue::Obj(pairs) => assert_eq!(pairs[0].0, "questions"),
        _ => panic!("question input should be an object"),
    }
    assert!(matches!(&r.events[0], CanonicalEvent::ToolUse { name, .. } if name == "AskUserQuestion"));
    assert!(matches!(&r.events[1], CanonicalEvent::ToolBlock { .. }));
    assert!(matches!(&r.events[2], CanonicalEvent::Done));
    let resp = into_response(st.norm, Terminal::StalledAskingUser);
    assert!(!resp.cancelled);
    assert_eq!(resp.usage, None);
}

#[test]
fn stall_needs_content_producing_last_event() {
    let mut st = RunState::new(0);
    let lines = lines_of(&[r#"{"type":"tool_use","id":"c1","name":"read","input":{}}"#]);
    supervisor_step(&mut st, &lines, true, true, 1000);
    // Last event was a tool invocation, not content: the stall rule does
    // not fire, and nothing else ends the run.
    let r = supervisor_step(
        &mut st,
        &Vec::new(),
        true,
        true,
        1000 + INTERACTIVE_STALL_TIMEOUT_MS + 1,
    );
    assert_eq!(r.outcome, None);
}

#[test]
fn tail_then_supervise_round() {
    let mut cursor = TailCursor::new();
    let mut st = RunState::new(0);
    // Two polls: a partial line completes on the second read.
    let lines1 = cursor.feed(br#"{"type":"text","te"#);
    assert!(lines1.is_empty());
    let r1 = supervisor_step(&mut st, &lines1, true, true, 100);
    assert_eq!(r1.outcome, None);
    let lines2 = cursor.feed("xt\":\"Hello\"}\n".as_bytes());
    assert_eq!(lines2.len(), 1);
    let r2 = supervisor_step(&mut st, &lines2, true, true, 200);
    assert_eq!(r2.outcome, None);
    assert_eq!(st.norm.transcript, "Hello");
}

#[test]
fn tailer_splits_and_buffers() {
    let mut cursor = TailCursor::new();
    let lines = cursor.feed(b"one\ntwo\nthr");
    assert_eq!(lines, vec![b"one".to_vec(), b"two".to_vec()]);
    let lines2 = cursor.feed(b"ee\n\nfour");
    assert_eq!(lines2, vec![b"three".to_vec(), b"".to_vec()]);
    let lines3 = cursor.feed(b"");
    assert!(lines3.is_empty());
}

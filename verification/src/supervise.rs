//! Run supervisor: the state machine that reconciles file content, process
//! liveness and wall-clock time into one deterministic completion decision.
//!
//! One step of the supervision loop takes the newly tailed lines, whether
//! the session is still registered, whether the process is alive, and the
//! current time; it applies the lines to the normalizer and then evaluates
//! the exit conditions in fixed priority order: completion signal, external
//! cancellation, dead-process timeout, interactive-stall timeout, startup
//! timeout. Ties always break toward the earliest-listed condition. The
//! caller performs the step at a fixed polling cadence and carries out the
//! returned actions (emitting the events, killing the process on a stall).

use vstd::prelude::*;
use crate::events::{CanonicalEvent, ContentBlock, EventModel, OpenCodeResponse, ToolCall};
use crate::json::{pair_models_of, lemma_pair_models_of_index, lemma_models_of_index, models_of,
    JsonModel, JsonValue};
use crate::normalize::{
    apply_raw_line, content_producing, spec_apply_raw_line, spec_line_counts, EventTag, NormModel,
    NormState, init_norm_model,
};
use vstd::string::StringExecFns;
use vstd::string::StrSliceExecFns;

verus! {

/// With no output at all for this long after launch, the run is treated as
/// a failed start.
pub const STARTUP_TIMEOUT_MS: u64 = 120000;

/// With output received but the process dead and silent for this long, the
/// run is over.
pub const DEAD_PROCESS_TIMEOUT_MS: u64 = 2000;

/// With the process alive but silent for this long after content, the
/// backend is taken to be blocking on input that will never arrive.
pub const INTERACTIVE_STALL_TIMEOUT_MS: u64 = 30000;

/// The fixed pause between supervision loop iterations.
pub const POLL_INTERVAL_MS: u64 = 100;

/// How a run ends.
#[derive(Clone, Copy, PartialEq, Eq, Structural, Debug)]
pub enum Terminal {
    /// The backend signalled completion, or exited after producing output.
    Completed,
    /// Startup timeout, external cancellation, or a silent death.
    Cancelled,
    /// The backend stalled waiting for input; a question was synthesized.
    StalledAskingUser,
}

/// One run's supervision state: the accumulated normalization plus the
/// time bookkeeping the exit conditions read.
pub struct RunState {
    pub norm: NormState,
    pub received_output: bool,
    pub started_at_ms: u64,
    pub last_output_ms: u64,
}

#[verifier::ext_equal]
pub struct RunModel {
    pub norm: NormModel,
    pub received_output: bool,
    pub started_at_ms: u64,
    pub last_output_ms: u64,
}

impl View for RunState {
    type V = RunModel;

    open spec fn view(&self) -> RunModel {
        RunModel {
            norm: self.norm@,
            received_output: self.received_output,
            started_at_ms: self.started_at_ms,
            last_output_ms: self.last_output_ms,
        }
    }
}

impl RunState {
    /// A fresh run, started now.
    pub fn new(now_ms: u64) -> (r: RunState)
        ensures
            r@ == (RunModel {
                norm: init_norm_model(),
                received_output: false,
                started_at_ms: now_ms,
                last_output_ms: now_ms,
            }),
    {
        RunState {
            norm: NormState::new(),
            received_output: false,
            started_at_ms: now_ms,
            last_output_ms: now_ms,
        }
    }
}

/// The lines of one poll applied in order.
pub open spec fn spec_apply_lines(st: NormModel, lines: Seq<Seq<u8>>) -> (NormModel, Seq<EventModel>)
    decreases lines.len(),
{
    if lines.len() == 0 {
        (st, Seq::empty())
    } else {
        let first = spec_apply_raw_line(st, lines[0]);
        let rest = spec_apply_lines(first.0, lines.drop_first());
        (rest.0, first.1 + rest.1)
    }
}

/// Whether any line of the poll counted as backend output.
pub open spec fn any_line_counts(lines: Seq<Seq<u8>>) -> bool {
    exists|i: int| 0 <= i < lines.len() && #[trigger] spec_line_counts(lines[i])
}

proof fn lemma_apply_lines_push(st: NormModel, lines: Seq<Seq<u8>>, x: Seq<u8>)
    ensures
        ({
            let upto = spec_apply_lines(st, lines);
            let last = spec_apply_raw_line(upto.0, x);
            spec_apply_lines(st, lines.push(x)) == (last.0, upto.1 + last.1)
        }),
    decreases lines.len(),
{
    let p = lines.push(x);
    if lines.len() == 0 {
        assert(p[0] == x);
        assert(p.drop_first() =~= Seq::<Seq<u8>>::empty());
        let last = spec_apply_raw_line(st, x);
        assert(spec_apply_lines(last.0, p.drop_first()) == (last.0, Seq::<EventModel>::empty()));
        assert(last.1 + Seq::<EventModel>::empty() =~= Seq::<EventModel>::empty() + last.1);
        assert((spec_apply_lines(st, p).0, spec_apply_lines(st, p).1) =~= spec_apply_lines(st, p));
    } else {
        assert(p[0] == lines[0]);
        assert(p.drop_first() =~= lines.drop_first().push(x));
        let first = spec_apply_raw_line(st, lines[0]);
        lemma_apply_lines_push(first.0, lines.drop_first(), x);
        let upto = spec_apply_lines(st, lines);
        let last = spec_apply_raw_line(upto.0, x);
        assert(first.1 + (spec_apply_lines(first.0, lines.drop_first()).1 + last.1) =~= upto.1
            + last.1);
    }
}

proof fn lemma_any_counts_push(lines: Seq<Seq<u8>>, x: Seq<u8>)
    ensures
        any_line_counts(lines.push(x)) == (any_line_counts(lines) || spec_line_counts(x)),
{
    let p = lines.push(x);
    if any_line_counts(lines) {
        let i = choose|i: int| 0 <= i < lines.len() && #[trigger] spec_line_counts(lines[i]);
        assert(spec_line_counts(p[i]));
    }
    if spec_line_counts(x) {
        assert(spec_line_counts(p[lines.len() as int]));
    }
    if any_line_counts(p) {
        let i = choose|i: int| 0 <= i < p.len() && #[trigger] spec_line_counts(p[i]);
        if i < lines.len() {
            assert(spec_line_counts(lines[i]));
        } else {
            assert(p[i] == x);
        }
    }
}

/// A poll in which nothing counted as output leaves the accumulation
/// untouched: blank lines and the metadata header carry nothing.
pub proof fn lemma_no_output_no_change(st: NormModel, lines: Seq<Seq<u8>>)
    requires
        !any_line_counts(lines),
    ensures
        spec_apply_lines(st, lines) == (st, Seq::<EventModel>::empty()),
    decreases lines.len(),
{
    if lines.len() > 0 {
        assert(!spec_line_counts(lines[0]));
        assert(forall|i: int|
            0 <= i < lines.drop_first().len() ==> !#[trigger] spec_line_counts(
                lines.drop_first()[i],
            )) by {
            assert(forall|i: int|
                0 <= i < lines.drop_first().len() ==> lines.drop_first()[i] == lines[i + 1]);
        }
        lemma_no_output_no_change(st, lines.drop_first());
        assert((spec_apply_lines(st, lines).0, spec_apply_lines(st, lines).1) =~= spec_apply_lines(
            st,
            lines,
        ));
        assert(Seq::<EventModel>::empty() + Seq::<EventModel>::empty()
            =~= Seq::<EventModel>::empty());
    }
}

/// The state after one poll's lines and time bookkeeping, before the exit
/// conditions are evaluated.
pub open spec fn spec_step_mid(st: RunModel, lines: Seq<Seq<u8>>, now: u64) -> RunModel {
    RunModel {
        norm: spec_apply_lines(st.norm, lines).0,
        received_output: st.received_output || any_line_counts(lines),
        started_at_ms: st.started_at_ms,
        last_output_ms: if lines.len() > 0 {
            now
        } else {
            st.last_output_ms
        },
    }
}

/// The exit decision, in fixed priority order: completion signal, external
/// cancellation, dead-process timeout, interactive-stall timeout, startup
/// timeout. A dead process that produced a transcript or tool calls is a
/// completion, not a failure.
pub open spec fn spec_decide(
    st: RunModel,
    registry_present: bool,
    process_alive: bool,
    now: u64,
) -> Option<Terminal> {
    if st.norm.completed {
        Some(Terminal::Completed)
    } else if !registry_present {
        Some(Terminal::Cancelled)
    } else if st.received_output && !process_alive && now - st.last_output_ms
        > DEAD_PROCESS_TIMEOUT_MS {
        if st.norm.transcript.len() > 0 || st.norm.tool_calls.len() > 0 {
            Some(Terminal::Completed)
        } else {
            Some(Terminal::Cancelled)
        }
    } else if st.received_output && process_alive && now - st.last_output_ms
        > INTERACTIVE_STALL_TIMEOUT_MS && content_producing(st.norm.last_event_type) {
        Some(Terminal::StalledAskingUser)
    } else if !st.received_output && now - st.started_at_ms > STARTUP_TIMEOUT_MS {
        Some(Terminal::Cancelled)
    } else {
        None
    }
}

/// The question payload synthesized on a stall.
pub open spec fn spec_ask_input(q: Seq<char>) -> JsonModel {
    JsonModel::Obj(
        seq![
            (
                "questions"@,
                JsonModel::Arr(
                    seq![
                        JsonModel::Obj(
                            seq![
                                ("question"@, JsonModel::Str(q)),
                                ("options"@, JsonModel::Arr(Seq::empty())),
                                ("allowCustom"@, JsonModel::Bool(true)),
                            ],
                        ),
                    ],
                ),
            ),
        ],
    )
}

/// The question a stalled backend is taken to be asking: the last text
/// seen, or a fixed prompt when there was none.
pub open spec fn spec_stall_question(norm: NormModel) -> Seq<char> {
    if norm.last_text_content.len() == 0 {
        "OpenCode is waiting for your input."@
    } else {
        norm.last_text_content
    }
}

/// The accumulation and events of a stall: one synthesized tool call of
/// the reserved question tool, its block position, and the final done
/// event.
pub open spec fn spec_stall_update(norm: NormModel, ask_id: Seq<char>) -> (
    NormModel,
    Seq<EventModel>,
) {
    let q = spec_stall_question(norm);
    let input = spec_ask_input(q);
    (
        NormModel {
            tool_calls: norm.tool_calls.push(
                crate::events::ToolCallModel {
                    id: ask_id,
                    name: "AskUserQuestion"@,
                    input: input,
                    output: None,
                    parent_tool_use_id: None,
                },
            ),
            content_blocks: norm.content_blocks.push(
                crate::events::ContentBlockModel::ToolUse(ask_id),
            ),
            ..norm
        },
        seq![
            EventModel::ToolUse { id: ask_id, name: "AskUserQuestion"@, input: input, parent: None },
            EventModel::ToolBlock(ask_id),
            EventModel::Done,
        ],
    )
}

/// Relies on uuid::Uuid::new_v4 and its hyphenated display form: a fresh
/// random identifier of 36 characters; nothing else holds of its value.
#[verifier::external_body]
fn fresh_uuid_string() -> (r: String)
    ensures
        r@.len() == 36,
{
    uuid::Uuid::new_v4().to_string()
}

fn build_ask_input(question: &str) -> (r: JsonValue)
    ensures
        r@ == spec_ask_input(question@),
{
    let empty_arr: Vec<JsonValue> = Vec::new();
    proof {
        lemma_models_of_index(empty_arr@);
        assert(models_of(empty_arr@) =~= Seq::<JsonModel>::empty());
    }
    let mut inner: Vec<(String, JsonValue)> = Vec::new();
    inner.push((String::from_str("question"), JsonValue::Str(String::from_str(question))));
    inner.push((String::from_str("options"), JsonValue::Arr(empty_arr)));
    inner.push((String::from_str("allowCustom"), JsonValue::Bool(true)));
    let ghost innerv = inner@;
    let ghost inner_pairs = seq![
        ("question"@, JsonModel::Str(question@)),
        ("options"@, JsonModel::Arr(Seq::<JsonModel>::empty())),
        ("allowCustom"@, JsonModel::Bool(true)),
    ];
    proof {
        lemma_pair_models_of_index(innerv);
        assert(pair_models_of(innerv) =~= inner_pairs);
    }
    let mut arr: Vec<JsonValue> = Vec::new();
    arr.push(JsonValue::Obj(inner));
    let ghost arrv = arr@;
    proof {
        lemma_models_of_index(arrv);
        assert(models_of(arrv) =~= seq![JsonModel::Obj(inner_pairs)]);
    }
    let mut outer: Vec<(String, JsonValue)> = Vec::new();
    outer.push((String::from_str("questions"), JsonValue::Arr(arr)));
    let ghost outerv = outer@;
    proof {
        lemma_pair_models_of_index(outerv);
        assert(pair_models_of(outerv) =~= seq![
            ("questions"@, JsonModel::Arr(seq![JsonModel::Obj(inner_pairs)])),
        ]);
    }
    let r = JsonValue::Obj(outer);
    proof {
        assert(r@ == JsonModel::Obj(pair_models_of(outerv)));
        assert(spec_ask_input(question@) == JsonModel::Obj(
            seq![("questions"@, JsonModel::Arr(seq![JsonModel::Obj(inner_pairs)]))],
        ));
    }
    r
}

/// What one supervision step returned: the canonical events to emit in
/// order, the terminal outcome if the run ended, and whether the caller
/// must kill the process.
pub struct StepResult {
    pub events: Vec<CanonicalEvent>,
    pub outcome: Option<Terminal>,
    pub kill_process: bool,
}

/// One iteration of the supervision loop. Applies the newly tailed lines,
/// updates the time bookkeeping, and evaluates the exit conditions in
/// priority order. A done event is appended for every terminal outcome
/// except `Cancelled`; on a stall the synthesized question events are
/// appended and the caller is told to kill the process.
#[verifier::loop_isolation(false)]
pub fn supervisor_step(
    st: &mut RunState,
    lines: &Vec<Vec<u8>>,
    registry_present: bool,
    process_alive: bool,
    now_ms: u64,
) -> (r: StepResult)
    requires
        now_ms >= old(st).last_output_ms,
        now_ms >= old(st).started_at_ms,
    ensures
        ({
            let mid = spec_step_mid(old(st)@, lines.deep_view(), now_ms);
            let midev = spec_apply_lines(old(st)@.norm, lines.deep_view()).1;
            let d = spec_decide(mid, registry_present, process_alive, now_ms);
            r.outcome == d && r.kill_process == (d == Some(Terminal::StalledAskingUser)) && (match d {
                Some(Terminal::StalledAskingUser) => exists|aid: Seq<char>|
                    {
                        let su = #[trigger] spec_stall_update(mid.norm, aid);
                        final(st)@ == (RunModel { norm: su.0, ..mid }) && r.events.deep_view()
                            == midev + su.1
                    },
                Some(Terminal::Completed) => final(st)@ == mid && r.events.deep_view() == midev.push(
                    EventModel::Done,
                ),
                _ => final(st)@ == mid && r.events.deep_view() == midev,
            })
        }),
{
    let ghost lv = lines.deep_view();
    let ghost st0 = old(st)@;
    if lines.len() > 0 {
        st.last_output_ms = now_ms;
    }
    let mut events: Vec<CanonicalEvent> = Vec::new();
    proof {
        assert(events.deep_view() =~= Seq::<EventModel>::empty());
        assert(lv.take(0) =~= Seq::<Seq<u8>>::empty());
    }
    let mut i: usize = 0;
    while i < lines.len()
        invariant
            i <= lines@.len(),
            st.norm@ == spec_apply_lines(st0.norm, lv.take(i as int)).0,
            events.deep_view() == spec_apply_lines(st0.norm, lv.take(i as int)).1,
            st.received_output == (st0.received_output || any_line_counts(lv.take(i as int))),
            st.started_at_ms == st0.started_at_ms,
            st.last_output_ms == if lines@.len() > 0 {
                now_ms
            } else {
                st0.last_output_ms
            },
        decreases lines@.len() - i,
    {
        proof {
            lemma_apply_lines_push(st0.norm, lv.take(i as int), lv[i as int]);
            lemma_any_counts_push(lv.take(i as int), lv[i as int]);
            assert(lv.take(i + 1) =~= lv.take(i as int).push(lv[i as int]));
            assert(lv[i as int] == lines@[i as int]@);
        }
        let (counted, mut evs) = apply_raw_line(&mut st.norm, lines[i].as_slice());
        if counted {
            st.received_output = true;
        }
        let ghost evbefore = events.deep_view();
        let ghost evnew = evs.deep_view();
        events.append(&mut evs);
        proof {
            assert(events.deep_view() =~= evbefore + evnew);
            assert(events.deep_view() =~= spec_apply_lines(st0.norm, lv.take(i + 1)).1);
        }
        i = i + 1;
    }
    proof {
        assert(lv.take(lines@.len() as int) =~= lv);
        assert(st@ =~= spec_step_mid(st0, lv, now_ms));
    }
    let ghost mid = spec_step_mid(st0, lv, now_ms);
    if st.norm.completed {
        events.push(CanonicalEvent::Done);
        proof {
            assert(events.deep_view() =~= spec_apply_lines(st0.norm, lv).1.push(EventModel::Done));
        }
        return StepResult { events, outcome: Some(Terminal::Completed), kill_process: false };
    }
    if !registry_present {
        return StepResult { events, outcome: Some(Terminal::Cancelled), kill_process: false };
    }
    if st.received_output {
        if !process_alive && now_ms - st.last_output_ms > DEAD_PROCESS_TIMEOUT_MS {
            if st.norm.transcript.as_str().unicode_len() > 0 || st.norm.tool_calls.len() > 0 {
                events.push(CanonicalEvent::Done);
                proof {
                    assert(events.deep_view() =~= spec_apply_lines(st0.norm, lv).1.push(
                        EventModel::Done,
                    ));
                }
                return StepResult {
                    events,
                    outcome: Some(Terminal::Completed),
                    kill_process: false,
                };
            }
            return StepResult { events, outcome: Some(Terminal::Cancelled), kill_process: false };
        }
        let content_tag = st.norm.last_event_type == EventTag::Text || st.norm.last_event_type
            == EventTag::Content || st.norm.last_event_type == EventTag::Assistant
            || st.norm.last_event_type == EventTag::StepStart;
        if process_alive && now_ms - st.last_output_ms > INTERACTIVE_STALL_TIMEOUT_MS
            && content_tag {
            let uuid = fresh_uuid_string();
            let mut ask_id = String::from_str("opencode_ask_");
            ask_id.append(uuid.as_str());
            let question = if st.norm.last_text_content.as_str().unicode_len() == 0 {
                String::from_str("OpenCode is waiting for your input.")
            } else {
                st.norm.last_text_content.clone()
            };
            let ask_input = build_ask_input(question.as_str());
            let ask_input2 = ask_input.deep_clone();
            st.norm.tool_calls.push(
                ToolCall {
                    id: ask_id.clone(),
                    name: String::from_str("AskUserQuestion"),
                    input: ask_input,
                    output: None,
                    parent_tool_use_id: None,
                },
            );
            st.norm.content_blocks.push(ContentBlock::ToolUse { tool_call_id: ask_id.clone() });
            events.push(
                CanonicalEvent::ToolUse {
                    id: ask_id.clone(),
                    name: String::from_str("AskUserQuestion"),
                    input: ask_input2,
                    parent_tool_use_id: None,
                },
            );
            events.push(CanonicalEvent::ToolBlock { tool_call_id: ask_id });
            events.push(CanonicalEvent::Done);
            proof {
                let su = spec_stall_update(mid.norm, final(st)@.norm.tool_calls.last().id);
                assert(st.norm.tool_calls.deep_view() =~= su.0.tool_calls);
                assert(st.norm.content_blocks.deep_view() =~= su.0.content_blocks);
                assert(st@.norm =~= su.0);
                assert(st@ =~= (RunModel { norm: su.0, ..mid }));
                assert(events.deep_view() =~= spec_apply_lines(st0.norm, lv).1 + su.1);
            }
            return StepResult {
                events,
                outcome: Some(Terminal::StalledAskingUser),
                kill_process: true,
            };
        }
        return StepResult { events, outcome: None, kill_process: false };
    }
    if now_ms - st.started_at_ms > STARTUP_TIMEOUT_MS {
        return StepResult { events, outcome: Some(Terminal::Cancelled), kill_process: false };
    }
    StepResult { events, outcome: None, kill_process: false }
}

/// The final value of a run. Cancellation is the only outcome flagged as
/// cancelled; a stall returns a recovered result whose usage totals are
/// dropped, as only a partial response was seen.
pub fn into_response(norm: NormState, outcome: Terminal) -> (r: OpenCodeResponse)
    ensures
        r@.content == norm@.transcript,
        r@.session_id == norm@.backend_session_id,
        r@.tool_calls == norm@.tool_calls,
        r@.content_blocks == norm@.content_blocks,
        r@.cancelled == (outcome == Terminal::Cancelled),
        r@.usage == if outcome == Terminal::StalledAskingUser {
            None::<crate::events::UsageData>
        } else {
            norm@.usage
        },
{
    let cancelled = match outcome {
        Terminal::Cancelled => true,
        _ => false,
    };
    let usage = match outcome {
        Terminal::StalledAskingUser => None,
        _ => norm.usage,
    };
    OpenCodeResponse {
        content: norm.transcript,
        session_id: norm.backend_session_id,
        tool_calls: norm.tool_calls,
        content_blocks: norm.content_blocks,
        cancelled,
        usage,
    }
}

/// A run that receives no output for longer than the startup timeout is
/// cancelled, with an empty transcript: the decision falls to the startup
/// condition (or to an external cancellation, which is also a
/// cancellation), and a run that never received output still holds the
/// initial accumulation.
pub proof fn lemma_startup_timeout_cancels(
    st: RunModel,
    registry_present: bool,
    process_alive: bool,
    now: u64,
)
    requires
        st.norm == init_norm_model(),
        !st.received_output,
        now - st.started_at_ms > STARTUP_TIMEOUT_MS,
    ensures
        spec_decide(st, registry_present, process_alive, now) == Some(Terminal::Cancelled),
        st.norm.transcript.len() == 0,
{
}

/// A run whose registry entry is gone is cancelled on the very next step,
/// whatever the process liveness, unless the same poll carried the
/// backend's own completion signal (completion is decided first).
pub proof fn lemma_external_cancel(
    st: RunModel,
    process_alive: bool,
    now: u64,
)
    requires
        !st.norm.completed,
    ensures
        spec_decide(st, false, process_alive, now) == Some(Terminal::Cancelled),
{
}

/// A run that received output, then went silent past the interactive-stall
/// timeout with the process alive and the last event content-producing,
/// ends as stalled-asking-user: the step kills the process and synthesizes
/// exactly one tool call, named as the reserved question tool, carrying
/// the last text seen.
pub proof fn lemma_interactive_stall(
    st: RunModel,
    now: u64,
    ask_id: Seq<char>,
)
    requires
        !st.norm.completed,
        st.received_output,
        now - st.last_output_ms > INTERACTIVE_STALL_TIMEOUT_MS,
        content_producing(st.norm.last_event_type),
    ensures
        spec_decide(st, true, true, now) == Some(Terminal::StalledAskingUser),
        spec_stall_update(st.norm, ask_id).0.tool_calls.len() == st.norm.tool_calls.len() + 1,
        spec_stall_update(st.norm, ask_id).0.tool_calls.last().name == "AskUserQuestion"@,
        spec_stall_update(st.norm, ask_id).0.tool_calls.last().id == ask_id,
        spec_stall_update(st.norm, ask_id).1.len() == 3,
        spec_stall_update(st.norm, ask_id).1.last() == EventModel::Done,
{
}

} // verus!

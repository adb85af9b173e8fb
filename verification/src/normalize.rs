//! Stateless per-line event normalization: interpreting one backend JSON
//! line as canonical events and updates to the running transcript,
//! tool-call list and usage totals.
//!
//! Backends drift in field naming, so every semantic value is read through
//! an ordered fallback over the possible field names; lines that are empty,
//! carry the run-metadata header, or fail to parse are noise, not failures.

use vstd::prelude::*;
use crate::events::{CanonicalEvent, ContentBlock, EventModel, ToolCall, UsageData};
use crate::json::{
    lemma_models_of_index, models_of, parse_json, parsed_json, spec_as_str, spec_as_u64, spec_get,
    json_text, JsonModel, JsonValue,
};
use crate::strutil::{
    blank_bytes, bytes_contain, contains_seq, is_blank, push_char, str_eq,
};
use vstd::string::StringExecFns;
use vstd::string::StrSliceExecFns;

verus! {

/// The string content of a member, when the member exists and is a string.
pub open spec fn get_str(m: JsonModel, k: Seq<char>) -> Option<Seq<char>> {
    match spec_get(m, k) {
        Some(x) => spec_as_str(x),
        None => None,
    }
}

/// The first member present among two candidate names.
pub open spec fn field2(m: JsonModel, k1: Seq<char>, k2: Seq<char>) -> Option<JsonModel> {
    if spec_get(m, k1) is Some {
        spec_get(m, k1)
    } else {
        spec_get(m, k2)
    }
}

/// The first member present among three candidate names.
pub open spec fn field3(m: JsonModel, k1: Seq<char>, k2: Seq<char>, k3: Seq<char>) -> Option<
    JsonModel,
> {
    if spec_get(m, k1) is Some {
        spec_get(m, k1)
    } else {
        field2(m, k2, k3)
    }
}

pub open spec fn u64_or_zero(v: Option<JsonModel>) -> u64 {
    match v {
        Some(x) => match spec_as_u64(x) {
            Some(n) => n,
            None => 0,
        },
        None => 0,
    }
}

fn get_str_exec<'a>(m: &'a JsonValue, k: &str) -> (r: Option<&'a str>)
    ensures
        match r {
            Some(s) => get_str(m@, k@) == Some(s@),
            None => get_str(m@, k@) is None,
        },
{
    match m.get(k) {
        Some(x) => x.as_str(),
        None => None,
    }
}

fn field2_exec<'a>(m: &'a JsonValue, k1: &str, k2: &str) -> (r: Option<&'a JsonValue>)
    ensures
        match r {
            Some(x) => field2(m@, k1@, k2@) == Some(x@),
            None => field2(m@, k1@, k2@) is None,
        },
{
    match m.get(k1) {
        Some(x) => Some(x),
        None => m.get(k2),
    }
}

fn field3_exec<'a>(m: &'a JsonValue, k1: &str, k2: &str, k3: &str) -> (r: Option<&'a JsonValue>)
    ensures
        match r {
            Some(x) => field3(m@, k1@, k2@, k3@) == Some(x@),
            None => field3(m@, k1@, k2@, k3@) is None,
        },
{
    match m.get(k1) {
        Some(x) => Some(x),
        None => field2_exec(m, k2, k3),
    }
}

/// Concatenation of string parts.
pub open spec fn concat_seqs(parts: Seq<Seq<char>>) -> Seq<char>
    decreases parts.len(),
{
    if parts.len() == 0 {
        Seq::empty()
    } else {
        parts[0] + concat_seqs(parts.drop_first())
    }
}

/// The parts joined by one newline.
pub open spec fn joined_nl(parts: Seq<Seq<char>>) -> Seq<char>
    decreases parts.len(),
{
    if parts.len() == 0 {
        Seq::empty()
    } else if parts.len() == 1 {
        parts[0]
    } else {
        parts[0] + seq!['\n'] + joined_nl(parts.drop_first())
    }
}

/// A block of type `text` that carries a string `text` member.
pub open spec fn is_text_block(b: JsonModel) -> bool {
    get_str(b, "type"@) == Some("text"@) && get_str(b, "text"@) is Some
}

/// The texts of the `text` blocks, in order.
pub open spec fn texts_of(blocks: Seq<JsonModel>) -> Seq<Seq<char>>
    decreases blocks.len(),
{
    if blocks.len() == 0 {
        Seq::empty()
    } else if is_text_block(blocks[0]) {
        seq![get_str(blocks[0], "text"@)->Some_0] + texts_of(blocks.drop_first())
    } else {
        texts_of(blocks.drop_first())
    }
}

proof fn lemma_texts_of_push(s: Seq<JsonModel>, x: JsonModel)
    ensures
        texts_of(s.push(x)) == if is_text_block(x) {
            texts_of(s).push(get_str(x, "text"@)->Some_0)
        } else {
            texts_of(s)
        },
    decreases s.len(),
{
    let p = s.push(x);
    if s.len() == 0 {
        assert(p[0] == x);
        assert(p.drop_first() =~= Seq::<JsonModel>::empty());
        assert(texts_of(p.drop_first()) =~= Seq::<Seq<char>>::empty());
        assert(texts_of(s) =~= Seq::<Seq<char>>::empty());
        if is_text_block(x) {
            assert(texts_of(p) == seq![get_str(p[0], "text"@)->Some_0] + texts_of(p.drop_first()));
            assert(texts_of(p) =~= texts_of(s).push(get_str(x, "text"@)->Some_0));
        }
    } else {
        assert(p[0] == s[0]);
        assert(p.drop_first() =~= s.drop_first().push(x));
        lemma_texts_of_push(s.drop_first(), x);
        if is_text_block(x) {
            if is_text_block(s[0]) {
                assert(texts_of(p) =~= texts_of(s).push(get_str(x, "text"@)->Some_0));
            } else {
                assert(texts_of(p) =~= texts_of(s).push(get_str(x, "text"@)->Some_0));
            }
        }
    }
}

proof fn lemma_concat_seqs_push(s: Seq<Seq<char>>, x: Seq<char>)
    ensures
        concat_seqs(s.push(x)) == concat_seqs(s) + x,
    decreases s.len(),
{
    let p = s.push(x);
    if s.len() == 0 {
        assert(p[0] == x);
        assert(p.drop_first() =~= Seq::<Seq<char>>::empty());
        assert(concat_seqs(p.drop_first()) =~= Seq::<char>::empty());
        assert(concat_seqs(s) =~= Seq::<char>::empty());
        assert(concat_seqs(p) == p[0] + concat_seqs(p.drop_first()));
        assert(concat_seqs(p) =~= concat_seqs(s) + x);
    } else {
        assert(p[0] == s[0]);
        assert(p.drop_first() =~= s.drop_first().push(x));
        lemma_concat_seqs_push(s.drop_first(), x);
        assert(concat_seqs(p) =~= concat_seqs(s) + x);
    }
}

proof fn lemma_joined_nl_push(s: Seq<Seq<char>>, x: Seq<char>)
    ensures
        joined_nl(s.push(x)) == if s.len() == 0 {
            x
        } else {
            joined_nl(s) + seq!['\n'] + x
        },
    decreases s.len(),
{
    let p = s.push(x);
    if s.len() == 0 {
        assert(p[0] == x);
    } else {
        assert(p[0] == s[0]);
        assert(p.drop_first() =~= s.drop_first().push(x));
        lemma_joined_nl_push(s.drop_first(), x);
        if s.len() == 1 {
            assert(joined_nl(p) =~= joined_nl(s) + seq!['\n'] + x);
        } else {
            assert(joined_nl(p) =~= joined_nl(s) + seq!['\n'] + x);
        }
    }
}

/// Text nested under `message.content`: the content itself when it is a
/// string, or the concatenation of its `text` blocks when it is an array
/// holding at least one.
pub open spec fn spec_message_content_text(m: JsonModel) -> Option<Seq<char>> {
    match spec_get(m, "message"@) {
        Some(msg) => match spec_get(msg, "content"@) {
            Some(c) => match c {
                JsonModel::Str(s) => Some(s),
                JsonModel::Arr(blocks) => if texts_of(blocks).len() > 0 {
                    Some(concat_seqs(texts_of(blocks)))
                } else {
                    None
                },
                _ => None,
            },
            None => None,
        },
        None => None,
    }
}

/// The text content of a message, read through the ordered fallbacks:
/// `part.text`, then a top-level `text`, then `message.content` (string or
/// text-block array), then a top-level string `content`.
pub open spec fn spec_extract_text(m: JsonModel) -> Option<Seq<char>> {
    let part_text = match spec_get(m, "part"@) {
        Some(p) => get_str(p, "text"@),
        None => None,
    };
    if part_text is Some {
        part_text
    } else if get_str(m, "text"@) is Some {
        get_str(m, "text"@)
    } else if spec_message_content_text(m) is Some {
        spec_message_content_text(m)
    } else {
        get_str(m, "content"@)
    }
}

/// Extract text content from the message formats the backends stream.
#[verifier::loop_isolation(false)]
pub fn extract_text_content(msg: &JsonValue) -> (r: Option<String>)
    ensures
        match r {
            Some(s) => spec_extract_text(msg@) == Some(s@),
            None => spec_extract_text(msg@) is None,
        },
{
    match msg.get("part") {
        Some(p) => {
            match get_str_exec(p, "text") {
                Some(t) => {
                    return Some(String::from_str(t));
                },
                None => {},
            }
        },
        None => {},
    }
    match get_str_exec(msg, "text") {
        Some(t) => {
            return Some(String::from_str(t));
        },
        None => {},
    }
    match msg.get("message") {
        Some(mm) => {
            match mm.get("content") {
                Some(c) => {
                    match c.as_str() {
                        Some(s) => {
                            return Some(String::from_str(s));
                        },
                        None => {},
                    }
                    match c.as_array() {
                        Some(items) => {
                            proof {
                                lemma_models_of_index(items@);
                            }
                            let ghost ms = models_of(items@);
                            let mut acc = String::new();
                            let mut found = false;
                            let mut i: usize = 0;
                            while i < items.len()
                                invariant
                                    i <= items@.len(),
                                    acc@ == concat_seqs(texts_of(ms.take(i as int))),
                                    found == (texts_of(ms.take(i as int)).len() > 0),
                                decreases items@.len() - i,
                            {
                                proof {
                                    lemma_texts_of_push(ms.take(i as int), ms[i as int]);
                                    assert(ms.take(i + 1) =~= ms.take(i as int).push(
                                        ms[i as int],
                                    ));
                                }
                                let b = &items[i];
                                let mut is_text = false;
                                match get_str_exec(b, "type") {
                                    Some(t) => {
                                        if str_eq(t, "text") {
                                            is_text = true;
                                        }
                                    },
                                    None => {},
                                }
                                if is_text {
                                    match get_str_exec(b, "text") {
                                        Some(t) => {
                                            proof {
                                                lemma_concat_seqs_push(
                                                    texts_of(ms.take(i as int)),
                                                    t@,
                                                );
                                            }
                                            acc.append(t);
                                            found = true;
                                        },
                                        None => {},
                                    }
                                }
                                i = i + 1;
                            }
                            proof {
                                assert(ms.take(items@.len() as int) =~= ms);
                            }
                            if found {
                                return Some(acc);
                            }
                        },
                        None => {},
                    }
                },
                None => {},
            }
        },
        None => {},
    }
    match get_str_exec(msg, "content") {
        Some(t) => Some(String::from_str(t)),
        None => None,
    }
}

/// The output text carried by a `tool_result` block: its `content` as a
/// string, or the `text` entries of a content array joined by newlines, or
/// empty.
pub open spec fn spec_tool_result_content(b: JsonModel) -> Seq<char> {
    match spec_get(b, "content"@) {
        Some(c) => match c {
            JsonModel::Str(s) => s,
            JsonModel::Arr(items) => joined_nl(texts_of(items)),
            _ => Seq::empty(),
        },
        None => Seq::empty(),
    }
}

/// Extract the output text from a `tool_result` block.
#[verifier::loop_isolation(false)]
pub fn extract_tool_result_content(block: &JsonValue) -> (r: String)
    ensures
        r@ == spec_tool_result_content(block@),
{
    match block.get("content") {
        Some(c) => {
            match c.as_str() {
                Some(s) => {
                    return String::from_str(s);
                },
                None => {},
            }
            match c.as_array() {
                Some(items) => {
                    proof {
                        lemma_models_of_index(items@);
                    }
                    let ghost ms = models_of(items@);
                    let mut acc = String::new();
                    let mut found = false;
                    let mut i: usize = 0;
                    while i < items.len()
                        invariant
                            i <= items@.len(),
                            acc@ == joined_nl(texts_of(ms.take(i as int))),
                            found == (texts_of(ms.take(i as int)).len() > 0),
                        decreases items@.len() - i,
                    {
                        proof {
                            lemma_texts_of_push(ms.take(i as int), ms[i as int]);
                            assert(ms.take(i + 1) =~= ms.take(i as int).push(ms[i as int]));
                        }
                        let b = &items[i];
                        let mut is_text = false;
                        match get_str_exec(b, "type") {
                            Some(t) => {
                                if str_eq(t, "text") {
                                    is_text = true;
                                }
                            },
                            None => {},
                        }
                        if is_text {
                            match get_str_exec(b, "text") {
                                Some(t) => {
                                    proof {
                                        lemma_joined_nl_push(texts_of(ms.take(i as int)), t@);
                                    }
                                    if found {
                                        push_char(&mut acc, '\n');
                                    }
                                    acc.append(t);
                                    found = true;
                                },
                                None => {},
                            }
                        }
                        i = i + 1;
                    }
                    proof {
                        assert(ms.take(items@.len() as int) =~= ms);
                    }
                    return acc;
                },
                None => {},
            }
            String::new()
        },
        None => String::new(),
    }
}

/// The four usage counters, each read from its prioritized field-name
/// variants — snake_case, then camelCase, then the alternate vendor
/// vocabulary — defaulting to zero when absent or not a plain integer.
pub open spec fn spec_parse_usage(m: JsonModel) -> UsageData {
    UsageData {
        input_tokens: u64_or_zero(field3(m, "input_tokens"@, "inputTokens"@, "prompt_tokens"@)),
        output_tokens: u64_or_zero(
            field3(m, "output_tokens"@, "outputTokens"@, "completion_tokens"@),
        ),
        cache_read_input_tokens: u64_or_zero(
            field2(m, "cache_read_input_tokens"@, "cacheReadInputTokens"@),
        ),
        cache_creation_input_tokens: u64_or_zero(
            field2(m, "cache_creation_input_tokens"@, "cacheCreationInputTokens"@),
        ),
    }
}

fn u64_or_zero_exec(v: Option<&JsonValue>, ghost_v: Ghost<Option<JsonModel>>) -> (r: u64)
    requires
        match v {
            Some(x) => ghost_v@ == Some(x@),
            None => ghost_v@ is None,
        },
    ensures
        r == u64_or_zero(ghost_v@),
{
    match v {
        Some(x) => match x.as_u64() {
            Some(n) => n,
            None => 0,
        },
        None => 0,
    }
}

/// A usage object in the snake_case vocabulary.
pub open spec fn usage_obj_snake(
    ta: Seq<char>,
    tb: Seq<char>,
    tc: Seq<char>,
    td: Seq<char>,
) -> JsonModel {
    JsonModel::Obj(
        seq![
            ("input_tokens"@, JsonModel::Num(ta)),
            ("output_tokens"@, JsonModel::Num(tb)),
            ("cache_read_input_tokens"@, JsonModel::Num(tc)),
            ("cache_creation_input_tokens"@, JsonModel::Num(td)),
        ],
    )
}

/// The same counters in the camelCase vocabulary.
pub open spec fn usage_obj_camel(
    ta: Seq<char>,
    tb: Seq<char>,
    tc: Seq<char>,
    td: Seq<char>,
) -> JsonModel {
    JsonModel::Obj(
        seq![
            ("inputTokens"@, JsonModel::Num(ta)),
            ("outputTokens"@, JsonModel::Num(tb)),
            ("cacheReadInputTokens"@, JsonModel::Num(tc)),
            ("cacheCreationInputTokens"@, JsonModel::Num(td)),
        ],
    )
}

/// The input and output counters in the alternate vendor vocabulary,
/// which has no cache counters.
pub open spec fn usage_obj_alt(ta: Seq<char>, tb: Seq<char>) -> JsonModel {
    JsonModel::Obj(
        seq![("prompt_tokens"@, JsonModel::Num(ta)), ("completion_tokens"@, JsonModel::Num(tb))],
    )
}

/// Whatever vocabulary carries them, the same counter values normalize to
/// the same record: the snake_case and camelCase forms agree on all four
/// counters, and the alternate vendor form agrees on the two counters it
/// has while its absent cache counters read zero.
pub proof fn lemma_usage_field_forms(ta: Seq<char>, tb: Seq<char>, tc: Seq<char>, td: Seq<char>)
    ensures
        spec_parse_usage(usage_obj_snake(ta, tb, tc, td)) == spec_parse_usage(
            usage_obj_camel(ta, tb, tc, td),
        ),
        spec_parse_usage(usage_obj_alt(ta, tb)).input_tokens == spec_parse_usage(
            usage_obj_snake(ta, tb, tc, td),
        ).input_tokens,
        spec_parse_usage(usage_obj_alt(ta, tb)).output_tokens == spec_parse_usage(
            usage_obj_snake(ta, tb, tc, td),
        ).output_tokens,
        spec_parse_usage(usage_obj_alt(ta, tb)).cache_read_input_tokens == 0,
        spec_parse_usage(usage_obj_alt(ta, tb)).cache_creation_input_tokens == 0,
{
    reveal_strlit("input_tokens");
    reveal_strlit("inputTokens");
    reveal_strlit("prompt_tokens");
    reveal_strlit("output_tokens");
    reveal_strlit("outputTokens");
    reveal_strlit("completion_tokens");
    reveal_strlit("cache_read_input_tokens");
    reveal_strlit("cacheReadInputTokens");
    reveal_strlit("cache_creation_input_tokens");
    reveal_strlit("cacheCreationInputTokens");
    let sp = usage_obj_snake(ta, tb, tc, td)->Obj_0;
    let cp = usage_obj_camel(ta, tb, tc, td)->Obj_0;
    let ap = usage_obj_alt(ta, tb)->Obj_0;
    assert(sp.len() == 4 && sp[0].0 == "input_tokens"@ && sp[1].0 == "output_tokens"@ && sp[2].0
        == "cache_read_input_tokens"@ && sp[3].0 == "cache_creation_input_tokens"@);
    assert(cp.len() == 4 && cp[0].0 == "inputTokens"@ && cp[1].0 == "outputTokens"@ && cp[2].0
        == "cacheReadInputTokens"@ && cp[3].0 == "cacheCreationInputTokens"@);
    assert(ap.len() == 2 && ap[0].0 == "prompt_tokens"@ && ap[1].0 == "completion_tokens"@);
    assert("input_tokens"@.len() == 12 && "output_tokens"@.len() == 13
        && "cache_read_input_tokens"@.len() == 23 && "cache_creation_input_tokens"@.len() == 27);
    assert("inputTokens"@.len() == 11 && "outputTokens"@.len() == 12
        && "cacheReadInputTokens"@.len() == 20 && "cacheCreationInputTokens"@.len() == 24);
    assert("prompt_tokens"@.len() == 13 && "completion_tokens"@.len() == 17);
    assert("input_tokens"@ != "outputTokens"@) by {
        assert("input_tokens"@[0] == 'i' && "outputTokens"@[0] == 'o');
    }
    assert("output_tokens"@ != "prompt_tokens"@) by {
        assert("output_tokens"@[0] == 'o' && "prompt_tokens"@[0] == 'p');
    }
    crate::json::lemma_lookup_at(sp, "input_tokens"@, 0);
    crate::json::lemma_lookup_at(sp, "output_tokens"@, 1);
    crate::json::lemma_lookup_at(sp, "cache_read_input_tokens"@, 2);
    crate::json::lemma_lookup_at(sp, "cache_creation_input_tokens"@, 3);
    crate::json::lemma_lookup_absent(cp, "input_tokens"@);
    crate::json::lemma_lookup_at(cp, "inputTokens"@, 0);
    crate::json::lemma_lookup_absent(cp, "output_tokens"@);
    crate::json::lemma_lookup_at(cp, "outputTokens"@, 1);
    crate::json::lemma_lookup_absent(cp, "cache_read_input_tokens"@);
    crate::json::lemma_lookup_at(cp, "cacheReadInputTokens"@, 2);
    crate::json::lemma_lookup_absent(cp, "cache_creation_input_tokens"@);
    crate::json::lemma_lookup_at(cp, "cacheCreationInputTokens"@, 3);
    crate::json::lemma_lookup_absent(ap, "input_tokens"@);
    crate::json::lemma_lookup_absent(ap, "inputTokens"@);
    crate::json::lemma_lookup_at(ap, "prompt_tokens"@, 0);
    crate::json::lemma_lookup_absent(ap, "output_tokens"@);
    crate::json::lemma_lookup_absent(ap, "outputTokens"@);
    crate::json::lemma_lookup_at(ap, "completion_tokens"@, 1);
    crate::json::lemma_lookup_absent(ap, "cache_read_input_tokens"@);
    crate::json::lemma_lookup_absent(ap, "cacheReadInputTokens"@);
    crate::json::lemma_lookup_absent(ap, "cache_creation_input_tokens"@);
    crate::json::lemma_lookup_absent(ap, "cacheCreationInputTokens"@);
}

/// The structured event type of the line seen most recently, kept for
/// stall classification. The two wire spellings of a tool invocation are
/// one tag: nothing downstream tells them apart.
#[derive(Clone, Copy, PartialEq, Eq, Structural, Debug)]
pub enum EventTag {
    NoneYet,
    Assistant,
    Text,
    Content,
    ToolUse,
    ToolResult,
    User,
    Thinking,
    StepFinish,
    StepStart,
}

/// The event categories that produce content; a stall is only recognized
/// when the line seen most recently belongs to one of them.
pub open spec fn content_producing(t: EventTag) -> bool {
    t == EventTag::Text || t == EventTag::Content || t == EventTag::Assistant || t
        == EventTag::StepStart
}

/// The running accumulation of one run: transcript, backend session id,
/// tool calls, ordered content blocks, usage, and completion.
pub struct NormState {
    pub transcript: String,
    pub backend_session_id: String,
    pub tool_calls: Vec<ToolCall>,
    pub content_blocks: Vec<ContentBlock>,
    pub completed: bool,
    pub usage: Option<UsageData>,
    pub last_event_type: EventTag,
    pub last_text_content: String,
}

#[verifier::ext_equal]
pub struct NormModel {
    pub transcript: Seq<char>,
    pub backend_session_id: Seq<char>,
    pub tool_calls: Seq<crate::events::ToolCallModel>,
    pub content_blocks: Seq<crate::events::ContentBlockModel>,
    pub completed: bool,
    pub usage: Option<UsageData>,
    pub last_event_type: EventTag,
    pub last_text_content: Seq<char>,
}

impl View for NormState {
    type V = NormModel;

    open spec fn view(&self) -> NormModel {
        NormModel {
            transcript: self.transcript@,
            backend_session_id: self.backend_session_id@,
            tool_calls: self.tool_calls.deep_view(),
            content_blocks: self.content_blocks.deep_view(),
            completed: self.completed,
            usage: self.usage,
            last_event_type: self.last_event_type,
            last_text_content: self.last_text_content@,
        }
    }
}

pub open spec fn init_norm_model() -> NormModel {
    NormModel {
        transcript: Seq::empty(),
        backend_session_id: Seq::empty(),
        tool_calls: Seq::empty(),
        content_blocks: Seq::empty(),
        completed: false,
        usage: None,
        last_event_type: EventTag::NoneYet,
        last_text_content: Seq::empty(),
    }
}

impl NormState {
    /// The empty accumulation a run starts from.
    pub fn new() -> (r: NormState)
        ensures
            r@ == init_norm_model(),
    {
        let r = NormState {
            transcript: String::new(),
            backend_session_id: String::new(),
            tool_calls: Vec::new(),
            content_blocks: Vec::new(),
            completed: false,
            usage: None,
            last_event_type: EventTag::NoneYet,
            last_text_content: String::new(),
        };
        proof {
            assert(r.tool_calls.deep_view() =~= Seq::<crate::events::ToolCallModel>::empty());
            assert(r.content_blocks.deep_view()
                =~= Seq::<crate::events::ContentBlockModel>::empty());
        }
        r
    }
}

pub open spec fn unwrap_str(o: Option<Seq<char>>) -> Seq<char> {
    match o {
        Some(s) => s,
        None => Seq::empty(),
    }
}

pub open spec fn as_str_opt(o: Option<JsonModel>) -> Option<Seq<char>> {
    match o {
        Some(x) => spec_as_str(x),
        None => None,
    }
}

pub open spec fn or_opt(a: Option<JsonModel>, b: Option<JsonModel>) -> Option<JsonModel> {
    if a is Some {
        a
    } else {
        b
    }
}

pub open spec fn part_get(part: Option<JsonModel>, k: Seq<char>) -> Option<JsonModel> {
    match part {
        Some(p) => spec_get(p, k),
        None => None,
    }
}

fn opt_get<'a>(o: Option<&'a JsonValue>, k: &str, om: Ghost<Option<JsonModel>>) -> (r: Option<
    &'a JsonValue,
>)
    requires
        match o {
            Some(x) => om@ == Some(x@),
            None => om@ is None,
        },
    ensures
        match r {
            Some(x) => part_get(om@, k@) == Some(x@),
            None => part_get(om@, k@) is None,
        },
{
    match o {
        Some(x) => x.get(k),
        None => None,
    }
}

fn or_ref<'a>(
    a: Option<&'a JsonValue>,
    b: Option<&'a JsonValue>,
    am: Ghost<Option<JsonModel>>,
    bm: Ghost<Option<JsonModel>>,
) -> (r: Option<&'a JsonValue>)
    requires
        match a {
            Some(x) => am@ == Some(x@),
            None => am@ is None,
        },
        match b {
            Some(x) => bm@ == Some(x@),
            None => bm@ is None,
        },
    ensures
        match r {
            Some(x) => or_opt(am@, bm@) == Some(x@),
            None => or_opt(am@, bm@) is None,
        },
{
    match a {
        Some(x) => Some(x),
        None => b,
    }
}

fn as_str_ref<'a>(o: Option<&'a JsonValue>, om: Ghost<Option<JsonModel>>) -> (r: Option<&'a str>)
    requires
        match o {
            Some(x) => om@ == Some(x@),
            None => om@ is None,
        },
    ensures
        match r {
            Some(s) => as_str_opt(om@) == Some(s@),
            None => as_str_opt(om@) is None,
        },
{
    match o {
        Some(x) => x.as_str(),
        None => None,
    }
}

/// The candidate backend session identifier carried under one key, at top
/// level or nested inside `part`.
pub open spec fn session_candidate_key(m: JsonModel, k: Seq<char>) -> Option<Seq<char>> {
    as_str_opt(or_opt(spec_get(m, k), part_get(spec_get(m, "part"@), k)))
}

pub open spec fn nonempty_opt(o: Option<Seq<char>>) -> bool {
    o is Some && o->Some_0.len() > 0
}

/// The first non-empty session identifier a line carries, trying the three
/// key spellings in order.
pub open spec fn spec_session_candidate(m: JsonModel) -> Option<Seq<char>> {
    if nonempty_opt(session_candidate_key(m, "sessionID"@)) {
        session_candidate_key(m, "sessionID"@)
    } else if nonempty_opt(session_candidate_key(m, "sessionId"@)) {
        session_candidate_key(m, "sessionId"@)
    } else if nonempty_opt(session_candidate_key(m, "session_id"@)) {
        session_candidate_key(m, "session_id"@)
    } else {
        None
    }
}

/// The first non-empty session identifier wins; a value already captured
/// is never overwritten.
pub open spec fn spec_capture_session(st: NormModel, m: JsonModel) -> NormModel {
    if st.backend_session_id.len() == 0 {
        match spec_session_candidate(m) {
            Some(sid) => NormModel { backend_session_id: sid, ..st },
            None => st,
        }
    } else {
        st
    }
}

fn session_candidate_key_exec<'a>(msg: &'a JsonValue, k: &str) -> (r: Option<&'a str>)
    ensures
        match r {
            Some(s) => session_candidate_key(msg@, k@) == Some(s@),
            None => session_candidate_key(msg@, k@) is None,
        },
{
    let top = msg.get(k);
    let part = msg.get("part");
    let nested = opt_get(
        part,
        k,
        Ghost(spec_get(msg@, "part"@)),
    );
    let v = or_ref(
        top,
        nested,
        Ghost(spec_get(msg@, k@)),
        Ghost(part_get(spec_get(msg@, "part"@), k@)),
    );
    as_str_ref(v, Ghost(or_opt(spec_get(msg@, k@), part_get(spec_get(msg@, "part"@), k@))))
}

fn capture_session(st: &mut NormState, msg: &JsonValue)
    ensures
        final(st)@ == spec_capture_session(old(st)@, msg@),
        final(st).transcript@ == old(st).transcript@,
        final(st).tool_calls == old(st).tool_calls,
        final(st).content_blocks == old(st).content_blocks,
        final(st).completed == old(st).completed,
        final(st).usage == old(st).usage,
        final(st).last_event_type == old(st).last_event_type,
        final(st).last_text_content == old(st).last_text_content,
{
    if st.backend_session_id.as_str().unicode_len() > 0 {
        return ;
    }
    match session_candidate_key_exec(msg, "sessionID") {
        Some(s) => {
            if s.unicode_len() > 0 {
                st.backend_session_id = String::from_str(s);
                return ;
            }
        },
        None => {},
    }
    match session_candidate_key_exec(msg, "sessionId") {
        Some(s) => {
            if s.unicode_len() > 0 {
                st.backend_session_id = String::from_str(s);
                return ;
            }
        },
        None => {},
    }
    match session_candidate_key_exec(msg, "session_id") {
        Some(s) => {
            if s.unicode_len() > 0 {
                st.backend_session_id = String::from_str(s);
                return ;
            }
        },
        None => {},
    }
}

/// Normalize a backend's usage object into the four-counter record.
pub fn parse_usage_data(usage_obj: &JsonValue) -> (r: UsageData)
    ensures
        r == spec_parse_usage(usage_obj@),
{
    let input = u64_or_zero_exec(
        field3_exec(usage_obj, "input_tokens", "inputTokens", "prompt_tokens"),
        Ghost(field3(usage_obj@, "input_tokens"@, "inputTokens"@, "prompt_tokens"@)),
    );
    let output = u64_or_zero_exec(
        field3_exec(usage_obj, "output_tokens", "outputTokens", "completion_tokens"),
        Ghost(field3(usage_obj@, "output_tokens"@, "outputTokens"@, "completion_tokens"@)),
    );
    let cache_read = u64_or_zero_exec(
        field2_exec(usage_obj, "cache_read_input_tokens", "cacheReadInputTokens"),
        Ghost(field2(usage_obj@, "cache_read_input_tokens"@, "cacheReadInputTokens"@)),
    );
    let cache_creation = u64_or_zero_exec(
        field2_exec(usage_obj, "cache_creation_input_tokens", "cacheCreationInputTokens"),
        Ghost(field2(usage_obj@, "cache_creation_input_tokens"@, "cacheCreationInputTokens"@)),
    );
    UsageData {
        input_tokens: input,
        output_tokens: output,
        cache_read_input_tokens: cache_read,
        cache_creation_input_tokens: cache_creation,
    }
}

/// A long tool output shown truncated: the first 2000 characters with a
/// trailing marker.
pub open spec fn spec_truncated(s: Seq<char>) -> Seq<char> {
    if s.len() > 2000 {
        s.take(2000) + "...(truncated)"@
    } else {
        s
    }
}

fn truncate_output(s: &str) -> (r: String)
    ensures
        r@ == spec_truncated(s@),
{
    let len = s.unicode_len();
    if len > 2000 {
        let t = s.substring_char(0, 2000);
        let mut out = String::from_str(t);
        out.append("...(truncated)");
        out
    } else {
        String::from_str(s)
    }
}

/// A tool output value as shown: a string as itself (truncated when asked),
/// anything else as its JSON text.
pub open spec fn spec_output_text(v: JsonModel, truncate: bool) -> Seq<char> {
    match v {
        JsonModel::Str(s) => if truncate {
            spec_truncated(s)
        } else {
            s
        },
        _ => json_text(v),
    }
}

fn output_text(v: &JsonValue, truncate: bool) -> (r: String)
    ensures
        r@ == spec_output_text(v@, truncate),
{
    match v.as_str() {
        Some(s) => {
            if truncate {
                truncate_output(s)
            } else {
                String::from_str(s)
            }
        },
        None => v.to_json_text(),
    }
}

pub open spec fn with_output(tc: crate::events::ToolCallModel, out: Seq<char>)
    -> crate::events::ToolCallModel {
    crate::events::ToolCallModel { output: Some(out), ..tc }
}

/// The tool-call list with the first record of the given id completed by
/// the output; without such a record, the list unchanged.
pub open spec fn spec_fill_output(
    tcs: Seq<crate::events::ToolCallModel>,
    id: Seq<char>,
    out: Seq<char>,
) -> Seq<crate::events::ToolCallModel>
    decreases tcs.len(),
{
    if tcs.len() == 0 {
        Seq::empty()
    } else if tcs[0].id == id {
        seq![with_output(tcs[0], out)] + tcs.drop_first()
    } else {
        seq![tcs[0]] + spec_fill_output(tcs.drop_first(), id, out)
    }
}

proof fn lemma_fill_output_at(
    tcs: Seq<crate::events::ToolCallModel>,
    id: Seq<char>,
    out: Seq<char>,
    i: int,
)
    requires
        0 <= i < tcs.len(),
        tcs[i].id == id,
        forall|j: int| 0 <= j < i ==> (#[trigger] tcs[j]).id != id,
    ensures
        spec_fill_output(tcs, id, out) =~= tcs.update(i, with_output(tcs[i], out)),
    decreases i,
{
    if i == 0 {
        assert(seq![with_output(tcs[0], out)] + tcs.drop_first() =~= tcs.update(
            0,
            with_output(tcs[0], out),
        ));
    } else {
        assert(tcs[0].id != id);
        lemma_fill_output_at(tcs.drop_first(), id, out, i - 1);
        assert(tcs.drop_first()[i - 1] == tcs[i]);
        assert(seq![tcs[0]] + tcs.drop_first().update(i - 1, with_output(tcs[i], out))
            =~= tcs.update(i, with_output(tcs[i], out)));
    }
}

proof fn lemma_fill_output_none(
    tcs: Seq<crate::events::ToolCallModel>,
    id: Seq<char>,
    out: Seq<char>,
)
    requires
        forall|j: int| 0 <= j < tcs.len() ==> (#[trigger] tcs[j]).id != id,
    ensures
        spec_fill_output(tcs, id, out) =~= tcs,
    decreases tcs.len(),
{
    if tcs.len() > 0 {
        lemma_fill_output_none(tcs.drop_first(), id, out);
        assert(seq![tcs[0]] + tcs.drop_first() =~= tcs);
    }
}

fn clone_opt_string(o: &Option<String>) -> (r: Option<String>)
    ensures
        crate::events::opt_str_view(r) == crate::events::opt_str_view(*o),
{
    match o {
        Some(s) => Some(s.clone()),
        None => None,
    }
}

fn opt_string_of(o: Option<&str>) -> (r: Option<String>)
    ensures
        crate::events::opt_str_view(r) == match o {
            Some(s) => Some(s@),
            None => None::<Seq<char>>,
        },
{
    match o {
        Some(s) => Some(String::from_str(s)),
        None => None,
    }
}

/// Completes the first tool-call record with the given id, when one
/// exists.
fn fill_tool_output(tool_calls: &mut Vec<ToolCall>, id: &str, out_text: &str)
    ensures
        final(tool_calls).deep_view() == spec_fill_output(
            old(tool_calls).deep_view(),
            id@,
            out_text@,
        ),
{
    let ghost tv = tool_calls.deep_view();
    let mut i: usize = 0;
    while i < tool_calls.len()
        invariant
            i <= tool_calls@.len(),
            tv == tool_calls.deep_view(),
            *tool_calls == *old(tool_calls),
            forall|j: int| 0 <= j < i ==> (#[trigger] tv[j]).id != id@,
        decreases tool_calls@.len() - i,
    {
        if str_eq(tool_calls[i].id.as_str(), id) {
            let rep = ToolCall {
                id: tool_calls[i].id.clone(),
                name: tool_calls[i].name.clone(),
                input: tool_calls[i].input.deep_clone(),
                output: Some(String::from_str(out_text)),
                parent_tool_use_id: clone_opt_string(&tool_calls[i].parent_tool_use_id),
            };
            proof {
                lemma_fill_output_at(tv, id@, out_text@, i as int);
            }
            tool_calls.set(i, rep);
            proof {
                assert(tool_calls.deep_view() =~= tv.update(
                    i as int,
                    with_output(tv[i as int], out_text@),
                ));
            }
            return ;
        }
        i = i + 1;
    }
    proof {
        lemma_fill_output_none(tv, id@, out_text@);
    }
}

/// One content block of an assistant message applied to the run: text
/// appends to the transcript, a tool use records a call, thinking records
/// a block; the `(no content)` placeholder is suppressed.
pub open spec fn spec_process_block(
    st: NormModel,
    b: JsonModel,
    parent: Option<Seq<char>>,
) -> (NormModel, Seq<EventModel>) {
    let bt = get_str(b, "type"@);
    if bt == Some("text"@) {
        match get_str(b, "text"@) {
            Some(t) => if t == "(no content)"@ {
                (st, Seq::empty())
            } else {
                (
                    NormModel {
                        transcript: st.transcript + t,
                        content_blocks: st.content_blocks.push(
                            crate::events::ContentBlockModel::Text(t),
                        ),
                        ..st
                    },
                    seq![EventModel::Chunk(t)],
                )
            },
            None => (st, Seq::empty()),
        }
    } else if bt == Some("tool_use"@) {
        let id = unwrap_str(get_str(b, "id"@));
        let name = unwrap_str(get_str(b, "name"@));
        let input = match spec_get(b, "input"@) {
            Some(x) => x,
            None => JsonModel::Null,
        };
        (
            NormModel {
                tool_calls: st.tool_calls.push(
                    crate::events::ToolCallModel {
                        id: id,
                        name: name,
                        input: input,
                        output: None,
                        parent_tool_use_id: parent,
                    },
                ),
                content_blocks: st.content_blocks.push(
                    crate::events::ContentBlockModel::ToolUse(id),
                ),
                ..st
            },
            seq![
                EventModel::ToolUse { id: id, name: name, input: input, parent: parent },
                EventModel::ToolBlock(id),
            ],
        )
    } else if bt == Some("thinking"@) {
        match get_str(b, "thinking"@) {
            Some(t) => (
                NormModel {
                    content_blocks: st.content_blocks.push(
                        crate::events::ContentBlockModel::Thinking(t),
                    ),
                    ..st
                },
                seq![EventModel::Thinking(t)],
            ),
            None => (st, Seq::empty()),
        }
    } else {
        (st, Seq::empty())
    }
}

/// The blocks of a message applied in order.
pub open spec fn spec_process_blocks(
    st: NormModel,
    bs: Seq<JsonModel>,
    parent: Option<Seq<char>>,
) -> (NormModel, Seq<EventModel>)
    decreases bs.len(),
{
    if bs.len() == 0 {
        (st, Seq::empty())
    } else {
        let first = spec_process_block(st, bs[0], parent);
        let rest = spec_process_blocks(first.0, bs.drop_first(), parent);
        (rest.0, first.1 + rest.1)
    }
}

proof fn lemma_process_blocks_push(
    st: NormModel,
    bs: Seq<JsonModel>,
    x: JsonModel,
    parent: Option<Seq<char>>,
)
    ensures
        ({
            let upto = spec_process_blocks(st, bs, parent);
            let last = spec_process_block(upto.0, x, parent);
            spec_process_blocks(st, bs.push(x), parent) == (last.0, upto.1 + last.1)
        }),
    decreases bs.len(),
{
    let p = bs.push(x);
    if bs.len() == 0 {
        assert(p[0] == x);
        assert(p.drop_first() =~= Seq::<JsonModel>::empty());
        let last = spec_process_block(st, x, parent);
        assert(spec_process_blocks(last.0, p.drop_first(), parent) == (
            last.0,
            Seq::<EventModel>::empty(),
        ));
        assert(last.1 + Seq::<EventModel>::empty() =~= Seq::<EventModel>::empty() + last.1);
        assert((spec_process_blocks(st, p, parent).0, spec_process_blocks(st, p, parent).1)
            =~= spec_process_blocks(st, p, parent));
    } else {
        assert(p[0] == bs[0]);
        assert(p.drop_first() =~= bs.drop_first().push(x));
        let first = spec_process_block(st, bs[0], parent);
        lemma_process_blocks_push(first.0, bs.drop_first(), x, parent);
        let upto = spec_process_blocks(st, bs, parent);
        let last = spec_process_block(upto.0, x, parent);
        assert(first.1 + (spec_process_blocks(first.0, bs.drop_first(), parent).1 + last.1)
            =~= upto.1 + last.1);
    }
}

/// Applies one content block, appending its events.
fn process_content_block(
    st: &mut NormState,
    block: &JsonValue,
    parent: Option<&str>,
    evs: &mut Vec<CanonicalEvent>,
)
    ensures
        ({
            let sp = spec_process_block(
                old(st)@,
                block@,
                match parent {
                    Some(p) => Some(p@),
                    None => None,
                },
            );
            final(st)@ == sp.0 && final(evs).deep_view() == old(evs).deep_view() + sp.1
        }),
{
    let ghost par: Option<Seq<char>> = match parent {
        Some(p) => Some(p@),
        None => None,
    };
    let ghost ev0 = evs.deep_view();
    match get_str_exec(block, "type") {
        Some(bt) => {
            if str_eq(bt, "text") {
                match get_str_exec(block, "text") {
                    Some(t) => {
                        if str_eq(t, "(no content)") {
                            proof {
                                assert(final(evs).deep_view() =~= ev0 + Seq::<EventModel>::empty());
                            }
                            return ;
                        }
                        st.transcript.append(t);
                        st.content_blocks.push(ContentBlock::Text { text: String::from_str(t) });
                        evs.push(CanonicalEvent::Chunk { content: String::from_str(t) });
                        proof {
                            let sp = spec_process_block(old(st)@, block@, par);
                            assert(st.content_blocks.deep_view() =~= old(
                                st,
                            ).content_blocks.deep_view().push(
                                crate::events::ContentBlockModel::Text(t@),
                            ));
                            assert(st@ =~= sp.0);
                            assert(evs.deep_view() =~= ev0 + sp.1);
                        }
                    },
                    None => {
                        proof {
                            assert(evs.deep_view() =~= ev0 + Seq::<EventModel>::empty());
                        }
                    },
                }
            } else if str_eq(bt, "tool_use") {
                let id_s = match get_str_exec(block, "id") {
                    Some(s) => String::from_str(s),
                    None => String::new(),
                };
                let name_s = match get_str_exec(block, "name") {
                    Some(s) => String::from_str(s),
                    None => String::new(),
                };
                let input_v = match block.get("input") {
                    Some(x) => x.deep_clone(),
                    None => JsonValue::Null,
                };
                let input_v2 = input_v.deep_clone();
                st.tool_calls.push(
                    ToolCall {
                        id: id_s.clone(),
                        name: name_s.clone(),
                        input: input_v,
                        output: None,
                        parent_tool_use_id: opt_string_of(parent),
                    },
                );
                st.content_blocks.push(ContentBlock::ToolUse { tool_call_id: id_s.clone() });
                evs.push(
                    CanonicalEvent::ToolUse {
                        id: id_s.clone(),
                        name: name_s,
                        input: input_v2,
                        parent_tool_use_id: opt_string_of(parent),
                    },
                );
                evs.push(CanonicalEvent::ToolBlock { tool_call_id: id_s });
                proof {
                    let sp = spec_process_block(old(st)@, block@, par);
                    assert(st.tool_calls.deep_view() =~= sp.0.tool_calls);
                    assert(st.content_blocks.deep_view() =~= sp.0.content_blocks);
                    assert(st@ =~= sp.0);
                    assert(evs.deep_view() =~= ev0 + sp.1);
                }
            } else if str_eq(bt, "thinking") {
                match get_str_exec(block, "thinking") {
                    Some(t) => {
                        st.content_blocks.push(
                            ContentBlock::Thinking { thinking: String::from_str(t) },
                        );
                        evs.push(CanonicalEvent::Thinking { content: String::from_str(t) });
                        proof {
                            let sp = spec_process_block(old(st)@, block@, par);
                            assert(st.content_blocks.deep_view() =~= sp.0.content_blocks);
                            assert(st@ =~= sp.0);
                            assert(evs.deep_view() =~= ev0 + sp.1);
                        }
                    },
                    None => {
                        proof {
                            assert(evs.deep_view() =~= ev0 + Seq::<EventModel>::empty());
                        }
                    },
                }
            } else {
                proof {
                    assert(evs.deep_view() =~= ev0 + Seq::<EventModel>::empty());
                }
            }
        },
        None => {
            proof {
                assert(evs.deep_view() =~= ev0 + Seq::<EventModel>::empty());
            }
        },
    }
}

/// Applies every block of the array in order, appending their events.
#[verifier::loop_isolation(false)]
fn process_content_blocks(
    st: &mut NormState,
    items: &Vec<JsonValue>,
    evs: &mut Vec<CanonicalEvent>,
)
    ensures
        ({
            let sp = spec_process_blocks(old(st)@, models_of(items@), None);
            final(st)@ == sp.0 && final(evs).deep_view() == old(evs).deep_view() + sp.1
        }),
{
    proof {
        lemma_models_of_index(items@);
    }
    let ghost ms = models_of(items@);
    let ghost ev0 = evs.deep_view();
    let mut i: usize = 0;
    while i < items.len()
        invariant
            i <= items@.len(),
            st@ == spec_process_blocks(old(st)@, ms.take(i as int), None).0,
            evs.deep_view() == ev0 + spec_process_blocks(old(st)@, ms.take(i as int), None).1,
        decreases items@.len() - i,
    {
        proof {
            lemma_process_blocks_push(old(st)@, ms.take(i as int), ms[i as int], None);
            assert(ms.take(i + 1) =~= ms.take(i as int).push(ms[i as int]));
        }
        process_content_block(st, &items[i], None, evs);
        proof {
            assert(evs.deep_view() =~= ev0 + spec_process_blocks(old(st)@, ms.take(i + 1), None).1);
        }
        i = i + 1;
    }
    proof {
        assert(ms.take(items@.len() as int) =~= ms);
    }
}

/// A text-bearing line: extracted text (unless it is the `(no content)`
/// placeholder, which suppresses the whole line) appends to the transcript
/// and becomes a chunk event, then any blocks under `message.content` are
/// applied.
pub open spec fn spec_text_arm(st: NormModel, m: JsonModel, tag: EventTag) -> (
    NormModel,
    Seq<EventModel>,
) {
    let st1 = NormModel { last_event_type: tag, ..st };
    match spec_extract_text(m) {
        Some(t) => if t == "(no content)"@ {
            (st1, Seq::empty())
        } else {
            let st2 = NormModel {
                transcript: st1.transcript + t,
                last_text_content: t,
                content_blocks: st1.content_blocks.push(crate::events::ContentBlockModel::Text(t)),
                ..st1
            };
            let rest = spec_text_arm_blocks(st2, m);
            (rest.0, seq![EventModel::Chunk(t)] + rest.1)
        },
        None => spec_text_arm_blocks(st1, m),
    }
}

pub open spec fn spec_text_arm_blocks(st: NormModel, m: JsonModel) -> (NormModel, Seq<EventModel>) {
    match spec_get(m, "message"@) {
        Some(msg) => match spec_get(msg, "content"@) {
            Some(c) => match c {
                JsonModel::Arr(bs) => spec_process_blocks(st, bs, None),
                _ => (st, Seq::empty()),
            },
            None => (st, Seq::empty()),
        },
        None => (st, Seq::empty()),
    }
}

/// A tool invocation line: id, name and input read through the part-form
/// and flat-form fallbacks; when the event already carries a completed
/// result, the tool result is synthesized in the same step, long outputs
/// truncated.
pub open spec fn spec_tool_use_arm(st: NormModel, m: JsonModel) -> (NormModel, Seq<EventModel>) {
    let st1 = NormModel { last_event_type: EventTag::ToolUse, ..st };
    let part = spec_get(m, "part"@);
    let id = unwrap_str(
        as_str_opt(
            or_opt(part_get(part, "callID"@), or_opt(spec_get(m, "id"@), spec_get(m, "tool_use_id"@))),
        ),
    );
    let name = unwrap_str(
        as_str_opt(
            or_opt(part_get(part, "tool"@), or_opt(spec_get(m, "name"@), spec_get(m, "tool_name"@))),
        ),
    );
    let state = part_get(part, "state"@);
    let input = match or_opt(
        part_get(state, "input"@),
        or_opt(spec_get(m, "input"@), spec_get(m, "arguments"@)),
    ) {
        Some(x) => x,
        None => JsonModel::Null,
    };
    let status = unwrap_str(as_str_opt(part_get(state, "status"@)));
    let output = if status == "completed"@ {
        match part_get(state, "output"@) {
            Some(v) => Some(spec_output_text(v, true)),
            None => None,
        }
    } else {
        None
    };
    let st2 = NormModel {
        tool_calls: st1.tool_calls.push(
            crate::events::ToolCallModel {
                id: id,
                name: name,
                input: input,
                output: output,
                parent_tool_use_id: None,
            },
        ),
        content_blocks: st1.content_blocks.push(crate::events::ContentBlockModel::ToolUse(id)),
        ..st1
    };
    let evs = seq![
        EventModel::ToolUse { id: id, name: name, input: input, parent: None },
        EventModel::ToolBlock(id),
    ];
    match output {
        Some(o) => (st2, evs.push(EventModel::ToolResult { id: id, output: o })),
        None => (st2, evs),
    }
}

/// A tool result line: the matching tool-call record is completed with the
/// output; the event is emitted whether or not a record existed.
pub open spec fn spec_tool_result_arm(st: NormModel, m: JsonModel) -> (NormModel, Seq<EventModel>) {
    let st1 = NormModel { last_event_type: EventTag::ToolResult, ..st };
    let tool_id = unwrap_str(get_str(m, "tool_use_id"@));
    let output = match field2(m, "content"@, "output"@) {
        Some(v) => spec_output_text(v, false),
        None => Seq::empty(),
    };
    (
        NormModel { tool_calls: spec_fill_output(st1.tool_calls, tool_id, output), ..st1 },
        seq![EventModel::ToolResult { id: tool_id, output: output }],
    )
}

/// One block of a user message: only `tool_result` blocks act, completing
/// the matching tool-call record and emitting the result.
pub open spec fn spec_user_block(st: NormModel, b: JsonModel) -> (NormModel, Seq<EventModel>) {
    if get_str(b, "type"@) == Some("tool_result"@) {
        let tool_id = unwrap_str(get_str(b, "tool_use_id"@));
        let output = spec_tool_result_content(b);
        (
            NormModel { tool_calls: spec_fill_output(st.tool_calls, tool_id, output), ..st },
            seq![EventModel::ToolResult { id: tool_id, output: output }],
        )
    } else {
        (st, Seq::empty())
    }
}

pub open spec fn spec_user_blocks(st: NormModel, bs: Seq<JsonModel>) -> (NormModel, Seq<EventModel>)
    decreases bs.len(),
{
    if bs.len() == 0 {
        (st, Seq::empty())
    } else {
        let first = spec_user_block(st, bs[0]);
        let rest = spec_user_blocks(first.0, bs.drop_first());
        (rest.0, first.1 + rest.1)
    }
}

proof fn lemma_user_blocks_push(st: NormModel, bs: Seq<JsonModel>, x: JsonModel)
    ensures
        ({
            let upto = spec_user_blocks(st, bs);
            let last = spec_user_block(upto.0, x);
            spec_user_blocks(st, bs.push(x)) == (last.0, upto.1 + last.1)
        }),
    decreases bs.len(),
{
    let p = bs.push(x);
    if bs.len() == 0 {
        assert(p[0] == x);
        assert(p.drop_first() =~= Seq::<JsonModel>::empty());
        let last = spec_user_block(st, x);
        assert(spec_user_blocks(last.0, p.drop_first()) == (last.0, Seq::<EventModel>::empty()));
        assert(last.1 + Seq::<EventModel>::empty() =~= Seq::<EventModel>::empty() + last.1);
        assert((spec_user_blocks(st, p).0, spec_user_blocks(st, p).1) =~= spec_user_blocks(st, p));
    } else {
        assert(p[0] == bs[0]);
        assert(p.drop_first() =~= bs.drop_first().push(x));
        let first = spec_user_block(st, bs[0]);
        lemma_user_blocks_push(first.0, bs.drop_first(), x);
        let upto = spec_user_blocks(st, bs);
        let last = spec_user_block(upto.0, x);
        assert(first.1 + (spec_user_blocks(first.0, bs.drop_first()).1 + last.1) =~= upto.1
            + last.1);
    }
}

/// A user line: its `message.content` blocks applied in order.
pub open spec fn spec_user_arm(st: NormModel, m: JsonModel) -> (NormModel, Seq<EventModel>) {
    let st1 = NormModel { last_event_type: EventTag::User, ..st };
    match spec_get(m, "message"@) {
        Some(msg) => match spec_get(msg, "content"@) {
            Some(c) => match c {
                JsonModel::Arr(bs) => spec_user_blocks(st1, bs),
                _ => (st1, Seq::empty()),
            },
            None => (st1, Seq::empty()),
        },
        None => (st1, Seq::empty()),
    }
}

/// A thinking line records a thinking block without touching the
/// transcript.
pub open spec fn spec_thinking_arm(st: NormModel, m: JsonModel) -> (NormModel, Seq<EventModel>) {
    let st1 = NormModel { last_event_type: EventTag::Thinking, ..st };
    match as_str_opt(field2(m, "thinking"@, "content"@)) {
        Some(t) => (
            NormModel {
                content_blocks: st1.content_blocks.push(
                    crate::events::ContentBlockModel::Thinking(t),
                ),
                ..st1
            },
            seq![EventModel::Thinking(t)],
        ),
        None => (st1, Seq::empty()),
    }
}

/// A completion line: an empty transcript may be filled from `result`,
/// usage totals are taken when present, and the run is marked complete.
/// The last-event tag is left as it was.
pub open spec fn spec_result_arm(st: NormModel, m: JsonModel) -> (NormModel, Seq<EventModel>) {
    let st1 = if st.transcript.len() == 0 {
        match get_str(m, "result"@) {
            Some(r) => NormModel { transcript: r, ..st },
            None => st,
        }
    } else {
        st
    };
    let st2 = match spec_get(m, "usage"@) {
        Some(u) => NormModel { usage: Some(spec_parse_usage(u)), ..st1 },
        None => st1,
    };
    (NormModel { completed: true, ..st2 }, Seq::empty())
}

/// A step-finish line: a terminal stop reason marks the run complete and
/// takes usage from `part.tokens`, else from `usage`.
pub open spec fn spec_step_finish_arm(st: NormModel, m: JsonModel) -> (NormModel, Seq<EventModel>) {
    let st1 = NormModel { last_event_type: EventTag::StepFinish, ..st };
    let part = spec_get(m, "part"@);
    match as_str_opt(or_opt(part_get(part, "reason"@), spec_get(m, "stop_reason"@))) {
        Some(r) => if r == "stop"@ || r == "end_turn"@ {
            let st2 = match part_get(part, "tokens"@) {
                Some(tk) => NormModel { usage: Some(spec_parse_usage(tk)), ..st1 },
                None => match spec_get(m, "usage"@) {
                    Some(u) => NormModel { usage: Some(spec_parse_usage(u)), ..st1 },
                    None => st1,
                },
            };
            (NormModel { completed: true, ..st2 }, Seq::empty())
        } else {
            (st1, Seq::empty())
        },
        None => (st1, Seq::empty()),
    }
}

/// One parsed line applied to the run: the session identifier is captured
/// opportunistically, then the line acts according to its `type`. Unknown
/// types are noise and change nothing.
pub open spec fn spec_apply_message(st0: NormModel, m: JsonModel) -> (NormModel, Seq<EventModel>) {
    let st = spec_capture_session(st0, m);
    match get_str(m, "type"@) {
        Some(t) => spec_dispatch(st, m, t),
        None => (st, Seq::empty()),
    }
}

/// The line's action, by its `type` tag; a tag outside the known set
/// changes nothing.
pub open spec fn spec_dispatch(st: NormModel, m: JsonModel, t: Seq<char>) -> (
    NormModel,
    Seq<EventModel>,
) {
    if t == "assistant"@ {
        spec_text_arm(st, m, EventTag::Assistant)
    } else if t == "text"@ {
        spec_text_arm(st, m, EventTag::Text)
    } else if t == "content"@ {
        spec_text_arm(st, m, EventTag::Content)
    } else if t == "tool_use"@ || t == "tool_call"@ {
        spec_tool_use_arm(st, m)
    } else if t == "tool_result"@ {
        spec_tool_result_arm(st, m)
    } else if t == "user"@ {
        spec_user_arm(st, m)
    } else if t == "thinking"@ {
        spec_thinking_arm(st, m)
    } else if t == "result"@ || t == "done"@ || t == "end"@ {
        spec_result_arm(st, m)
    } else if t == "step_finish"@ {
        spec_step_finish_arm(st, m)
    } else if t == "step_start"@ {
        (NormModel { last_event_type: EventTag::StepStart, ..st }, Seq::empty())
    } else {
        (st, Seq::empty())
    }
}

fn text_arm(st: &mut NormState, msg: &JsonValue, tag: EventTag, evs: &mut Vec<CanonicalEvent>)
    requires
        tag == EventTag::Assistant || tag == EventTag::Text || tag == EventTag::Content,
    ensures
        ({
            let sp = spec_text_arm(old(st)@, msg@, tag);
            final(st)@ == sp.0 && final(evs).deep_view() == old(evs).deep_view() + sp.1
        }),
{
    st.last_event_type = tag;
    let ghost ev0 = evs.deep_view();
    let te = extract_text_content(msg);
    match te {
        Some(t) => {
            if str_eq(t.as_str(), "(no content)") {
                proof {
                    assert(evs.deep_view() =~= ev0 + Seq::<EventModel>::empty());
                }
                return ;
            }
            st.transcript.append(t.as_str());
            st.last_text_content = t.clone();
            st.content_blocks.push(ContentBlock::Text { text: t.clone() });
            evs.push(CanonicalEvent::Chunk { content: t });
        },
        None => {},
    }
    let ghost sp = spec_text_arm(old(st)@, msg@, tag);
    let ghost mid = st@;
    let ghost evmid = evs.deep_view();
    proof {
        match spec_extract_text(msg@) {
            Some(t) => {
                if t != "(no content)"@ {
                    assert(st.content_blocks.deep_view() =~= old(st)@.content_blocks.push(
                        crate::events::ContentBlockModel::Text(t),
                    ));
                    assert(evs.deep_view() =~= ev0 + seq![EventModel::Chunk(t)]);
                }
            },
            None => {
                assert(evs.deep_view() =~= ev0);
            },
        }
    }
    match msg.get("message") {
        Some(mm) => {
            match mm.get("content") {
                Some(c) => {
                    match c.as_array() {
                        Some(items) => {
                            process_content_blocks(st, items, evs);
                            proof {
                                let bs = c@->Arr_0;
                                assert(models_of(items@) == bs);
                                let rest = spec_process_blocks(mid, bs, None);
                                assert(st@ == rest.0);
                                assert(evs.deep_view() =~= ev0 + sp.1);
                            }
                        },
                        None => {},
                    }
                },
                None => {},
            }
        },
        None => {},
    }
    proof {
        assert(st@ =~= sp.0);
        assert(evs.deep_view() =~= ev0 + sp.1);
    }
}

fn tool_use_arm(st: &mut NormState, msg: &JsonValue, evs: &mut Vec<CanonicalEvent>)
    ensures
        ({
            let sp = spec_tool_use_arm(old(st)@, msg@);
            final(st)@ == sp.0 && final(evs).deep_view() == old(evs).deep_view() + sp.1
        }),
{
    st.last_event_type = EventTag::ToolUse;
    let ghost ev0 = evs.deep_view();
    let part = msg.get("part");
    let ghost partm = spec_get(msg@, "part"@);
    let id_r = as_str_ref(
        or_ref(
            opt_get(part, "callID", Ghost(partm)),
            or_ref(
                msg.get("id"),
                msg.get("tool_use_id"),
                Ghost(spec_get(msg@, "id"@)),
                Ghost(spec_get(msg@, "tool_use_id"@)),
            ),
            Ghost(part_get(partm, "callID"@)),
            Ghost(or_opt(spec_get(msg@, "id"@), spec_get(msg@, "tool_use_id"@))),
        ),
        Ghost(
            or_opt(
                part_get(partm, "callID"@),
                or_opt(spec_get(msg@, "id"@), spec_get(msg@, "tool_use_id"@)),
            ),
        ),
    );
    let id_s = match id_r {
        Some(s) => String::from_str(s),
        None => String::new(),
    };
    let name_r = as_str_ref(
        or_ref(
            opt_get(part, "tool", Ghost(partm)),
            or_ref(
                msg.get("name"),
                msg.get("tool_name"),
                Ghost(spec_get(msg@, "name"@)),
                Ghost(spec_get(msg@, "tool_name"@)),
            ),
            Ghost(part_get(partm, "tool"@)),
            Ghost(or_opt(spec_get(msg@, "name"@), spec_get(msg@, "tool_name"@))),
        ),
        Ghost(
            or_opt(
                part_get(partm, "tool"@),
                or_opt(spec_get(msg@, "name"@), spec_get(msg@, "tool_name"@)),
            ),
        ),
    );
    let name_s = match name_r {
        Some(s) => String::from_str(s),
        None => String::new(),
    };
    let state = opt_get(part, "state", Ghost(partm));
    let ghost statem = part_get(partm, "state"@);
    let input_r = or_ref(
        opt_get(state, "input", Ghost(statem)),
        or_ref(
            msg.get("input"),
            msg.get("arguments"),
            Ghost(spec_get(msg@, "input"@)),
            Ghost(spec_get(msg@, "arguments"@)),
        ),
        Ghost(part_get(statem, "input"@)),
        Ghost(or_opt(spec_get(msg@, "input"@), spec_get(msg@, "arguments"@))),
    );
    let input_v = match input_r {
        Some(x) => x.deep_clone(),
        None => JsonValue::Null,
    };
    let status_r = as_str_ref(
        opt_get(state, "status", Ghost(statem)),
        Ghost(part_get(statem, "status"@)),
    );
    let is_completed = match status_r {
        Some(s) => str_eq(s, "completed"),
        None => false,
    };
    let output: Option<String> = if is_completed {
        match opt_get(state, "output", Ghost(statem)) {
            Some(v) => Some(output_text(v, true)),
            None => None,
        }
    } else {
        None
    };
    let ghost outm = crate::events::opt_str_view(output);
    let input_v2 = input_v.deep_clone();
    let output_rec = clone_opt_string(&output);
    st.tool_calls.push(
        ToolCall {
            id: id_s.clone(),
            name: name_s.clone(),
            input: input_v,
            output: output_rec,
            parent_tool_use_id: None,
        },
    );
    st.content_blocks.push(ContentBlock::ToolUse { tool_call_id: id_s.clone() });
    evs.push(
        CanonicalEvent::ToolUse {
            id: id_s.clone(),
            name: name_s,
            input: input_v2,
            parent_tool_use_id: None,
        },
    );
    evs.push(CanonicalEvent::ToolBlock { tool_call_id: id_s.clone() });
    match output {
        Some(o) => {
            evs.push(CanonicalEvent::ToolResult { tool_use_id: id_s, output: o });
        },
        None => {},
    }
    proof {
        let m = msg@;
        let st0 = old(st)@;
        let idv = unwrap_str(
            as_str_opt(
                or_opt(
                    part_get(partm, "callID"@),
                    or_opt(spec_get(m, "id"@), spec_get(m, "tool_use_id"@)),
                ),
            ),
        );
        let namev = unwrap_str(
            as_str_opt(
                or_opt(
                    part_get(partm, "tool"@),
                    or_opt(spec_get(m, "name"@), spec_get(m, "tool_name"@)),
                ),
            ),
        );
        let inputv = match or_opt(
            part_get(statem, "input"@),
            or_opt(spec_get(m, "input"@), spec_get(m, "arguments"@)),
        ) {
            Some(x) => x,
            None => JsonModel::Null,
        };
        let statusv = unwrap_str(as_str_opt(part_get(statem, "status"@)));
        let outputv: Option<Seq<char>> = if statusv == "completed"@ {
            match part_get(statem, "output"@) {
                Some(v) => Some(spec_output_text(v, true)),
                None => None,
            }
        } else {
            None
        };
        assert(id_s@ == idv);
        assert(name_s@ == namev);
        assert(input_v2@ == inputv);
        reveal_strlit("completed");
        assert(outm == outputv);
        let rec = crate::events::ToolCallModel {
            id: idv,
            name: namev,
            input: inputv,
            output: outputv,
            parent_tool_use_id: None,
        };
        let sp = spec_tool_use_arm(st0, m);
        assert(sp.0.tool_calls == st0.tool_calls.push(rec));
        assert(st.tool_calls.deep_view() =~= st0.tool_calls.push(rec));
        assert(st.content_blocks.deep_view() =~= st0.content_blocks.push(
            crate::events::ContentBlockModel::ToolUse(idv),
        ));
        assert(st@ =~= sp.0);
        let ev_use = EventModel::ToolUse { id: idv, name: namev, input: inputv, parent: None };
        match outputv {
            Some(o) => {
                assert(sp.1 == seq![ev_use, EventModel::ToolBlock(idv)].push(
                    EventModel::ToolResult { id: idv, output: o },
                ));
                assert(evs.deep_view() =~= ev0 + sp.1);
            },
            None => {
                assert(sp.1 == seq![ev_use, EventModel::ToolBlock(idv)]);
                assert(evs.deep_view() =~= ev0 + sp.1);
            },
        }
    }
}

fn tool_result_arm(st: &mut NormState, msg: &JsonValue, evs: &mut Vec<CanonicalEvent>)
    ensures
        ({
            let sp = spec_tool_result_arm(old(st)@, msg@);
            final(st)@ == sp.0 && final(evs).deep_view() == old(evs).deep_view() + sp.1
        }),
{
    st.last_event_type = EventTag::ToolResult;
    let ghost ev0 = evs.deep_view();
    let tool_id = match get_str_exec(msg, "tool_use_id") {
        Some(s) => String::from_str(s),
        None => String::new(),
    };
    let output = match field2_exec(msg, "content", "output") {
        Some(v) => output_text(v, false),
        None => String::new(),
    };
    fill_tool_output(&mut st.tool_calls, tool_id.as_str(), output.as_str());
    evs.push(CanonicalEvent::ToolResult { tool_use_id: tool_id, output: output });
    proof {
        let sp = spec_tool_result_arm(old(st)@, msg@);
        assert(st@ =~= sp.0);
        assert(evs.deep_view() =~= ev0 + sp.1);
    }
}

fn user_block(st: &mut NormState, b: &JsonValue, evs: &mut Vec<CanonicalEvent>)
    ensures
        ({
            let sp = spec_user_block(old(st)@, b@);
            final(st)@ == sp.0 && final(evs).deep_view() == old(evs).deep_view() + sp.1
        }),
{
    let ghost ev0 = evs.deep_view();
    let mut is_result = false;
    match get_str_exec(b, "type") {
        Some(t) => {
            if str_eq(t, "tool_result") {
                is_result = true;
            }
        },
        None => {},
    }
    if is_result {
        let tool_id = match get_str_exec(b, "tool_use_id") {
            Some(s) => String::from_str(s),
            None => String::new(),
        };
        let output = extract_tool_result_content(b);
        fill_tool_output(&mut st.tool_calls, tool_id.as_str(), output.as_str());
        evs.push(CanonicalEvent::ToolResult { tool_use_id: tool_id, output: output });
        proof {
            let sp = spec_user_block(old(st)@, b@);
            assert(st@ =~= sp.0);
            assert(evs.deep_view() =~= ev0 + sp.1);
        }
    } else {
        proof {
            assert(evs.deep_view() =~= ev0 + Seq::<EventModel>::empty());
        }
    }
}

#[verifier::loop_isolation(false)]
fn user_arm(st: &mut NormState, msg: &JsonValue, evs: &mut Vec<CanonicalEvent>)
    ensures
        ({
            let sp = spec_user_arm(old(st)@, msg@);
            final(st)@ == sp.0 && final(evs).deep_view() == old(evs).deep_view() + sp.1
        }),
{
    st.last_event_type = EventTag::User;
    let ghost st1 = st@;
    let ghost ev0 = evs.deep_view();
    match msg.get("message") {
        Some(mm) => {
            match mm.get("content") {
                Some(c) => {
                    match c.as_array() {
                        Some(items) => {
                            proof {
                                lemma_models_of_index(items@);
                            }
                            let ghost ms = models_of(items@);
                            let mut i: usize = 0;
                            while i < items.len()
                                invariant
                                    i <= items@.len(),
                                    st@ == spec_user_blocks(st1, ms.take(i as int)).0,
                                    evs.deep_view() == ev0 + spec_user_blocks(
                                        st1,
                                        ms.take(i as int),
                                    ).1,
                                decreases items@.len() - i,
                            {
                                proof {
                                    lemma_user_blocks_push(st1, ms.take(i as int), ms[i as int]);
                                    assert(ms.take(i + 1) =~= ms.take(i as int).push(
                                        ms[i as int],
                                    ));
                                }
                                user_block(st, &items[i], evs);
                                proof {
                                    assert(evs.deep_view() =~= ev0 + spec_user_blocks(
                                        st1,
                                        ms.take(i + 1),
                                    ).1);
                                }
                                i = i + 1;
                            }
                            proof {
                                assert(ms.take(items@.len() as int) =~= ms);
                            }
                        },
                        None => {},
                    }
                },
                None => {},
            }
        },
        None => {},
    }
    proof {
        let sp = spec_user_arm(old(st)@, msg@);
        assert(st@ =~= sp.0);
        assert(evs.deep_view() =~= ev0 + sp.1);
    }
}

fn thinking_arm(st: &mut NormState, msg: &JsonValue, evs: &mut Vec<CanonicalEvent>)
    ensures
        ({
            let sp = spec_thinking_arm(old(st)@, msg@);
            final(st)@ == sp.0 && final(evs).deep_view() == old(evs).deep_view() + sp.1
        }),
{
    st.last_event_type = EventTag::Thinking;
    let ghost ev0 = evs.deep_view();
    let t_r = as_str_ref(
        field2_exec(msg, "thinking", "content"),
        Ghost(field2(msg@, "thinking"@, "content"@)),
    );
    match t_r {
        Some(t) => {
            st.content_blocks.push(ContentBlock::Thinking { thinking: String::from_str(t) });
            evs.push(CanonicalEvent::Thinking { content: String::from_str(t) });
            proof {
                let sp = spec_thinking_arm(old(st)@, msg@);
                assert(st.content_blocks.deep_view() =~= sp.0.content_blocks);
                assert(st@ =~= sp.0);
                assert(evs.deep_view() =~= ev0 + sp.1);
            }
        },
        None => {
            proof {
                assert(evs.deep_view() =~= ev0 + Seq::<EventModel>::empty());
            }
        },
    }
}

fn result_arm(st: &mut NormState, msg: &JsonValue)
    ensures
        final(st)@ == spec_result_arm(old(st)@, msg@).0,
{
    if st.transcript.as_str().unicode_len() == 0 {
        match get_str_exec(msg, "result") {
            Some(r) => {
                st.transcript = String::from_str(r);
            },
            None => {},
        }
    }
    match msg.get("usage") {
        Some(u) => {
            st.usage = Some(parse_usage_data(u));
        },
        None => {},
    }
    st.completed = true;
    proof {
        assert(st@ =~= spec_result_arm(old(st)@, msg@).0);
    }
}

fn step_finish_arm(st: &mut NormState, msg: &JsonValue)
    ensures
        final(st)@ == spec_step_finish_arm(old(st)@, msg@).0,
{
    st.last_event_type = EventTag::StepFinish;
    let part = msg.get("part");
    let ghost partm = spec_get(msg@, "part"@);
    let reason = as_str_ref(
        or_ref(
            opt_get(part, "reason", Ghost(partm)),
            msg.get("stop_reason"),
            Ghost(part_get(partm, "reason"@)),
            Ghost(spec_get(msg@, "stop_reason"@)),
        ),
        Ghost(or_opt(part_get(partm, "reason"@), spec_get(msg@, "stop_reason"@))),
    );
    match reason {
        Some(r) => {
            if str_eq(r, "stop") || str_eq(r, "end_turn") {
                match opt_get(part, "tokens", Ghost(partm)) {
                    Some(tk) => {
                        st.usage = Some(parse_usage_data(tk));
                    },
                    None => {
                        match msg.get("usage") {
                            Some(u) => {
                                st.usage = Some(parse_usage_data(u));
                            },
                            None => {},
                        }
                    },
                }
                st.completed = true;
            }
        },
        None => {},
    }
    proof {
        assert(st@ =~= spec_step_finish_arm(old(st)@, msg@).0);
    }
}

/// Applies one parsed line to the run, yielding the canonical events it
/// produces, in emission order.
pub fn apply_message(st: &mut NormState, msg: &JsonValue) -> (evs: Vec<CanonicalEvent>)
    ensures
        ({
            let sp = spec_apply_message(old(st)@, msg@);
            final(st)@ == sp.0 && evs.deep_view() == sp.1
        }),
{
    let mut evs: Vec<CanonicalEvent> = Vec::new();
    proof {
        assert(evs.deep_view() =~= Seq::<EventModel>::empty());
    }
    capture_session(st, msg);
    let ghost sp = spec_apply_message(old(st)@, msg@);
    match get_str_exec(msg, "type") {
        Some(t) => {
            if str_eq(t, "assistant") {
                text_arm(st, msg, EventTag::Assistant, &mut evs);
            } else if str_eq(t, "text") {
                text_arm(st, msg, EventTag::Text, &mut evs);
            } else if str_eq(t, "content") {
                text_arm(st, msg, EventTag::Content, &mut evs);
            } else if str_eq(t, "tool_use") || str_eq(t, "tool_call") {
                tool_use_arm(st, msg, &mut evs);
            } else if str_eq(t, "tool_result") {
                tool_result_arm(st, msg, &mut evs);
            } else if str_eq(t, "user") {
                user_arm(st, msg, &mut evs);
            } else if str_eq(t, "thinking") {
                thinking_arm(st, msg, &mut evs);
            } else if str_eq(t, "result") || str_eq(t, "done") || str_eq(t, "end") {
                result_arm(st, msg);
            } else if str_eq(t, "step_finish") {
                step_finish_arm(st, msg);
            } else if str_eq(t, "step_start") {
                st.last_event_type = EventTag::StepStart;
            }
        },
        None => {},
    }
    proof {
        assert(st@ =~= sp.0);
        assert(evs.deep_view() =~= sp.1);
    }
    evs
}

/// The first line of a log may carry a run-metadata header; it is marked
/// by this field name and skipped.
pub open spec fn run_meta_marker() -> Seq<u8> {
    seq![34u8, 95u8, 114u8, 117u8, 110u8, 95u8, 109u8, 101u8, 116u8, 97u8, 34u8]
}

/// Whether a raw line counts as backend output: not blank, and not the
/// run-metadata header.
pub open spec fn spec_line_counts(line: Seq<u8>) -> bool {
    !blank_bytes(line) && !contains_seq(line, run_meta_marker())
}

/// One raw line applied to the run: blank lines and the metadata header
/// are skipped, lines that fail to parse are skipped silently, and parsed
/// lines act as [`spec_apply_message`] says.
pub open spec fn spec_apply_raw_line(st: NormModel, line: Seq<u8>) -> (NormModel, Seq<EventModel>) {
    if !spec_line_counts(line) {
        (st, Seq::empty())
    } else {
        match parsed_json(line) {
            Some(m) => spec_apply_message(st, m),
            None => (st, Seq::empty()),
        }
    }
}

/// Applies one raw log line; the flag says whether the line counted as
/// backend output (noise and parse failures still count, blank lines and
/// the metadata header do not).
pub fn apply_raw_line(st: &mut NormState, line: &[u8]) -> (r: (bool, Vec<CanonicalEvent>))
    ensures
        r.0 == spec_line_counts(line@),
        ({
            let sp = spec_apply_raw_line(old(st)@, line@);
            final(st)@ == sp.0 && r.1.deep_view() == sp.1
        }),
{
    if is_blank(line) {
        let evs: Vec<CanonicalEvent> = Vec::new();
        proof {
            assert(evs.deep_view() =~= Seq::<EventModel>::empty());
        }
        return (false, evs);
    }
    let mut mk: Vec<u8> = Vec::new();
    mk.push(34u8);
    mk.push(95u8);
    mk.push(114u8);
    mk.push(117u8);
    mk.push(110u8);
    mk.push(95u8);
    mk.push(109u8);
    mk.push(101u8);
    mk.push(116u8);
    mk.push(97u8);
    mk.push(34u8);
    proof {
        assert(mk@ =~= run_meta_marker());
    }
    if bytes_contain(line, mk.as_slice()) {
        let evs: Vec<CanonicalEvent> = Vec::new();
        proof {
            assert(evs.deep_view() =~= Seq::<EventModel>::empty());
        }
        return (false, evs);
    }
    match parse_json(line) {
        Some(v) => {
            let evs = apply_message(st, &v);
            (true, evs)
        },
        None => {
            let evs: Vec<CanonicalEvent> = Vec::new();
            proof {
                assert(evs.deep_view() =~= Seq::<EventModel>::empty());
            }
            (true, evs)
        },
    }
}

} // verus!

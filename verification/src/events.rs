//! The canonical event stream and the accumulated run result.
//!
//! Whatever wire format a backend streams, the normalizer translates it
//! into these types; they are the only contract the external transport
//! depends on. Each type has a mathematical model used by the contracts.

use vstd::prelude::*;
use crate::json::{JsonModel, JsonValue};

verus! {

/// Token usage totals for one response.
#[derive(Clone, Copy, PartialEq, Eq, Structural, Debug)]
pub struct UsageData {
    pub input_tokens: u64,
    pub output_tokens: u64,
    pub cache_read_input_tokens: u64,
    pub cache_creation_input_tokens: u64,
}

/// One tool invocation recorded during a run; `output` is filled in by a
/// later event referencing the same id.
pub struct ToolCall {
    pub id: String,
    pub name: String,
    pub input: JsonValue,
    pub output: Option<String>,
    pub parent_tool_use_id: Option<String>,
}

#[verifier::ext_equal]
pub struct ToolCallModel {
    pub id: Seq<char>,
    pub name: Seq<char>,
    pub input: JsonModel,
    pub output: Option<Seq<char>>,
    pub parent_tool_use_id: Option<Seq<char>>,
}

pub open spec fn opt_str_view(o: Option<String>) -> Option<Seq<char>> {
    match o {
        Some(s) => Some(s@),
        None => None,
    }
}

impl View for ToolCall {
    type V = ToolCallModel;

    open spec fn view(&self) -> ToolCallModel {
        ToolCallModel {
            id: self.id@,
            name: self.name@,
            input: self.input@,
            output: opt_str_view(self.output),
            parent_tool_use_id: opt_str_view(self.parent_tool_use_id),
        }
    }
}

impl DeepView for ToolCall {
    type V = ToolCallModel;

    open spec fn deep_view(&self) -> ToolCallModel {
        self.view()
    }
}

/// One block of the ordered content sequence, preserving how text, tool
/// use and thinking interleave in the response.
pub enum ContentBlock {
    Text { text: String },
    ToolUse { tool_call_id: String },
    Thinking { thinking: String },
}

#[verifier::ext_equal]
pub enum ContentBlockModel {
    Text(Seq<char>),
    ToolUse(Seq<char>),
    Thinking(Seq<char>),
}

impl View for ContentBlock {
    type V = ContentBlockModel;

    open spec fn view(&self) -> ContentBlockModel {
        match self {
            ContentBlock::Text { text } => ContentBlockModel::Text(text@),
            ContentBlock::ToolUse { tool_call_id } => ContentBlockModel::ToolUse(tool_call_id@),
            ContentBlock::Thinking { thinking } => ContentBlockModel::Thinking(thinking@),
        }
    }
}

impl DeepView for ContentBlock {
    type V = ContentBlockModel;

    open spec fn deep_view(&self) -> ContentBlockModel {
        self.view()
    }
}

/// One canonical event, as emitted to the external transport. The caller
/// attaches the session and worktree identifiers when forwarding.
pub enum CanonicalEvent {
    Chunk { content: String },
    ToolUse { id: String, name: String, input: JsonValue, parent_tool_use_id: Option<String> },
    ToolBlock { tool_call_id: String },
    ToolResult { tool_use_id: String, output: String },
    Thinking { content: String },
    Done,
    Error { error: String },
}

#[verifier::ext_equal]
pub enum EventModel {
    Chunk(Seq<char>),
    ToolUse { id: Seq<char>, name: Seq<char>, input: JsonModel, parent: Option<Seq<char>> },
    ToolBlock(Seq<char>),
    ToolResult { id: Seq<char>, output: Seq<char> },
    Thinking(Seq<char>),
    Done,
    Error(Seq<char>),
}

impl View for CanonicalEvent {
    type V = EventModel;

    open spec fn view(&self) -> EventModel {
        match self {
            CanonicalEvent::Chunk { content } => EventModel::Chunk(content@),
            CanonicalEvent::ToolUse { id, name, input, parent_tool_use_id } => EventModel::ToolUse {
                id: id@,
                name: name@,
                input: input@,
                parent: opt_str_view(*parent_tool_use_id),
            },
            CanonicalEvent::ToolBlock { tool_call_id } => EventModel::ToolBlock(tool_call_id@),
            CanonicalEvent::ToolResult { tool_use_id, output } => EventModel::ToolResult {
                id: tool_use_id@,
                output: output@,
            },
            CanonicalEvent::Thinking { content } => EventModel::Thinking(content@),
            CanonicalEvent::Done => EventModel::Done,
            CanonicalEvent::Error { error } => EventModel::Error(error@),
        }
    }
}

impl DeepView for CanonicalEvent {
    type V = EventModel;

    open spec fn deep_view(&self) -> EventModel {
        self.view()
    }
}

/// Payload of an error event sent to the transport.
pub struct ErrorEvent {
    pub session_id: String,
    pub worktree_id: String,
    pub error: String,
}

/// Payload of a cancellation event sent to the transport.
pub struct CancelledEvent {
    pub session_id: String,
    pub worktree_id: String,
    pub undo_send: bool,
}

/// The final accumulated value of one run.
pub struct OpenCodeResponse {
    /// The full text transcript.
    pub content: String,
    /// The backend's own conversation identifier, for resumption.
    pub session_id: String,
    /// Tool calls made during this response, in order.
    pub tool_calls: Vec<ToolCall>,
    /// Ordered content blocks preserving tool position in the response.
    pub content_blocks: Vec<ContentBlock>,
    /// Whether the run was cancelled.
    pub cancelled: bool,
    /// Token usage, when the backend reported it.
    pub usage: Option<UsageData>,
}

#[verifier::ext_equal]
pub struct ResponseModel {
    pub content: Seq<char>,
    pub session_id: Seq<char>,
    pub tool_calls: Seq<ToolCallModel>,
    pub content_blocks: Seq<ContentBlockModel>,
    pub cancelled: bool,
    pub usage: Option<UsageData>,
}

impl View for OpenCodeResponse {
    type V = ResponseModel;

    open spec fn view(&self) -> ResponseModel {
        ResponseModel {
            content: self.content@,
            session_id: self.session_id@,
            tool_calls: self.tool_calls.deep_view(),
            content_blocks: self.content_blocks.deep_view(),
            cancelled: self.cancelled,
            usage: self.usage,
        }
    }
}

} // verus!

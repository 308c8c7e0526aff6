//! Events of an agent run, and the provider's streaming events.
//!
//! JSON arguments are held as their JSON text.
use vstd::prelude::*;
use crate::errors::{AgentError, ToolError};
use crate::types::{AgentMessage, AssistantMessage, TokenUsage, ToolResult};

verus! {

/// Everything an agent run reports, in order.
#[derive(Debug)]
pub enum AgentEvent {
    /// A run starts, with the messages it injects.
    AgentStart { initial_messages: Vec<AgentMessage> },
    /// A run ends, with every message it added.
    AgentEnd { new_messages: Vec<AgentMessage> },
    /// A turn starts.
    TurnStart { index: u32 },
    /// A turn ends, with the model's reply and the tool outcomes.
    TurnEnd {
        index: u32,
        message: AssistantMessage,
        tool_results: Vec<(String, Result<ToolResult, ToolError>)>,
    },
    /// A reply starts streaming.
    MessageStart { message_id: String },
    /// The reply so far.
    MessageUpdate { message_id: String, partial: AssistantMessage },
    /// The complete reply.
    MessageEnd { message_id: String, message: AssistantMessage },
    /// Text added to the reply.
    TextDelta { message_id: String, text: String },
    /// Reasoning added to the reply.
    ThinkingDelta { message_id: String, thinking: String, signature: Option<String> },
    /// The model starts a tool call.
    ToolCallStart { message_id: String, tool_use_id: String, name: String },
    /// A fragment of a tool call's JSON arguments.
    ToolCallArgsDelta { tool_use_id: String, partial_input: String },
    /// A tool call's complete arguments (JSON text).
    ToolCallEnd { tool_use_id: String, args: String },
    /// A tool starts running (arguments as JSON text).
    ToolExecutionStart { tool_use_id: String, tool_name: String, args: String },
    /// A partial result of a long-running tool.
    ToolExecutionUpdate { tool_use_id: String, partial: ToolResult },
    /// A tool finished.
    ToolExecutionEnd { tool_use_id: String, result: Result<ToolResult, ToolError> },
    /// An unrecoverable error; the run ends next.
    Error(AgentError),
}

/// Why the provider stopped.
#[derive(Debug)]
pub enum ProviderStop {
    EndTurn,
    MaxTokens,
    StopSequence,
    ToolUse,
    ContentFilter,
    Other(String),
}

/// Token usage as the provider reports it.
#[derive(Clone, Copy, PartialEq, Eq, Structural, Debug)]
pub struct ProviderUsage {
    pub input_tokens: u32,
    pub output_tokens: u32,
    pub cached_input_tokens: u32,
    pub cache_creation_input_tokens: u32,
    pub reasoning_tokens: u32,
}

/// The kind of a streamed content block.
#[derive(Debug)]
pub enum ContentKind {
    Text,
    Reasoning,
    ToolInvocation { id: String, name: String },
}

/// One event of a provider's response stream.
#[derive(Debug)]
pub enum ProviderEvent {
    ContentStart { index: usize, kind: ContentKind },
    TextDelta { index: usize, text: String },
    ReasoningDelta { index: usize, text: String },
    ToolDelta { index: usize, arguments: String },
    ContentStop { index: usize },
    MessageStop { stop_reason: ProviderStop, usage: ProviderUsage },
}

/// The harness stop reason of a provider stop reason.
pub open spec fn stop_reason_of(r: ProviderStop) -> crate::types::StopReason {
    match r {
        ProviderStop::EndTurn => crate::types::StopReason::EndTurn,
        ProviderStop::MaxTokens => crate::types::StopReason::MaxTokens,
        ProviderStop::StopSequence => crate::types::StopReason::StopSequence,
        ProviderStop::ToolUse => crate::types::StopReason::ToolUse,
        ProviderStop::ContentFilter => crate::types::StopReason::Other,
        ProviderStop::Other(_) => crate::types::StopReason::Other,
    }
}

/// Maps a provider stop reason; content filtering counts as other.
pub fn convert_stop_reason(r: &ProviderStop) -> (s: crate::types::StopReason)
    ensures
        s == stop_reason_of(*r),
{
    match r {
        ProviderStop::EndTurn => crate::types::StopReason::EndTurn,
        ProviderStop::MaxTokens => crate::types::StopReason::MaxTokens,
        ProviderStop::StopSequence => crate::types::StopReason::StopSequence,
        ProviderStop::ToolUse => crate::types::StopReason::ToolUse,
        ProviderStop::ContentFilter => crate::types::StopReason::Other,
        ProviderStop::Other(_) => crate::types::StopReason::Other,
    }
}

/// Maps provider usage; reasoning tokens are not kept.
pub fn convert_usage(u: ProviderUsage) -> (t: TokenUsage)
    ensures
        t == (TokenUsage {
            input_tokens: u.input_tokens,
            output_tokens: u.output_tokens,
            cache_read_tokens: u.cached_input_tokens,
            cache_creation_tokens: u.cache_creation_input_tokens,
        }),
{
    TokenUsage {
        input_tokens: u.input_tokens,
        output_tokens: u.output_tokens,
        cache_read_tokens: u.cached_input_tokens,
        cache_creation_tokens: u.cache_creation_input_tokens,
    }
}

} // verus!

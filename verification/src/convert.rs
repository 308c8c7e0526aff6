//! Conversion of the transcript into provider messages: which content
//! blocks each role carries, and summaries sent as user text.
use vstd::prelude::*;
use crate::errors::AgentError;
use crate::text::push_str;
use crate::types::{AgentMessage, ContentBlock, MessageView};

verus! {

/// A message as the provider receives it.
#[derive(Debug)]
pub enum LlmMessage {
    /// User content: text and images.
    User(Vec<ContentBlock>),
    /// Model content: text, reasoning and tool invocations.
    Assistant(Vec<ContentBlock>),
    /// The outcome of a tool invocation: text and images.
    Tool { invocation_id: String, content: Vec<ContentBlock>, is_error: bool },
}

/// Blocks a user or tool message may carry.
pub open spec fn request_block(b: ContentBlock) -> bool {
    b is Text || b is Image
}

/// Blocks a model message may carry.
pub open spec fn response_block(b: ContentBlock) -> bool {
    b is Text || b is Thinking || b is ToolUse
}

/// The blocks that satisfy `keep`, in order.
pub open spec fn kept_blocks(bs: Seq<ContentBlock>, request: bool) -> Seq<ContentBlock>
    decreases bs.len(),
{
    if bs.len() == 0 {
        seq![]
    } else {
        let r = kept_blocks(bs.drop_last(), request);
        if (request && request_block(bs.last())) || (!request && response_block(bs.last())) {
            r.push(bs.last())
        } else {
            r
        }
    }
}

/// A summary as user text.
pub open spec fn summary_text(s: Seq<char>) -> Seq<char> {
    "<summary>\n"@ + s + "\n</summary>"@
}

/// The provider form of one message; none for an application-defined one.
pub open spec fn converted(m: MessageView, out: LlmMessage) -> bool {
    match m {
        MessageView::User { content, .. } => out matches LlmMessage::User(c) && c@ == kept_blocks(
            content,
            true,
        ),
        MessageView::Assistant(a) => out matches LlmMessage::Assistant(c) && c@ == kept_blocks(
            a.content,
            false,
        ),
        MessageView::ToolResult { tool_use_id, content, is_error, .. } => out matches LlmMessage::Tool {
            invocation_id,
            content: c,
            is_error: e,
        } && invocation_id == tool_use_id && c@ == kept_blocks(content, true) && e == is_error,
        MessageView::BranchSummary { summary, .. } => out matches LlmMessage::User(c) && c@.len()
            == 1 && (c@[0] matches ContentBlock::Text { text } && text@ == summary_text(summary@)),
        MessageView::CompactionSummary { summary, .. } => out matches LlmMessage::User(c)
            && c@.len() == 1 && (c@[0] matches ContentBlock::Text { text } && text@
            == summary_text(summary@)),
        MessageView::Custom { .. } => false,
    }
}

fn keep_blocks(bs: &Vec<ContentBlock>, request: bool) -> (r: Vec<ContentBlock>)
    ensures
        r@ == kept_blocks(bs@, request),
{
    let mut out: Vec<ContentBlock> = Vec::new();
    let mut i: usize = 0;
    while i < bs.len()
        invariant
            i <= bs@.len(),
            out@ == kept_blocks(bs@.subrange(0, i as int), request),
        decreases bs.len() - i,
    {
        proof {
            assert(bs@.subrange(0, i + 1).drop_last() =~= bs@.subrange(0, i as int));
            assert(bs@.subrange(0, i + 1).last() == bs@[i as int]);
        }
        let b = &bs[i];
        let keep = match b {
            ContentBlock::Text { .. } => true,
            ContentBlock::Image { .. } => request,
            ContentBlock::Thinking { .. } => !request,
            ContentBlock::ToolUse { .. } => !request,
        };
        if keep {
            out.push(b.clone());
        }
        i = i + 1;
    }
    proof {
        assert(bs@.subrange(0, i as int) =~= bs@);
    }
    out
}

fn summary_message(s: &String) -> (r: LlmMessage)
    ensures
        r matches LlmMessage::User(c) && c@.len() == 1 && (c@[0] matches ContentBlock::Text {
            text,
        } && text@ == summary_text(s@)),
{
    let mut t = String::from_str("<summary>\n");
    push_str(&mut t, s.as_str());
    push_str(&mut t, "\n</summary>");
    let mut c: Vec<ContentBlock> = Vec::new();
    c.push(ContentBlock::Text { text: t });
    LlmMessage::User(c)
}

/// The provider form of one message; none for an application-defined
/// message, which needs the application's converter.
pub fn convert_message(m: &AgentMessage) -> (r: Option<LlmMessage>)
    ensures
        match r {
            Some(out) => converted(m@, out),
            None => m@ is Custom,
        },
{
    match m {
        AgentMessage::User(u) => Some(LlmMessage::User(keep_blocks(&u.content, true))),
        AgentMessage::Assistant(a) => Some(LlmMessage::Assistant(keep_blocks(&a.content, false))),
        AgentMessage::ToolResult(t) => Some(
            LlmMessage::Tool {
                invocation_id: t.tool_use_id.clone(),
                content: keep_blocks(&t.content, true),
                is_error: t.is_error,
            },
        ),
        AgentMessage::BranchSummary(b) => Some(summary_message(&b.summary)),
        AgentMessage::CompactionSummary(c) => Some(summary_message(&c.summary)),
        AgentMessage::Custom(_) => None,
    }
}

/// The message reporting an application-defined message without converter.
pub open spec fn no_converter_text() -> Seq<char> {
    "custom message has no converter; provide CustomMessageConverter via DefaultConvertToLlm::with_custom_converter"@
}

/// Converts a transcript without an application converter: every message
/// in order, failing on the first application-defined one.
pub fn convert_messages(messages: &Vec<AgentMessage>) -> (r: Result<Vec<LlmMessage>, AgentError>)
    ensures
        (exists|k: int| 0 <= k < messages@.len() && (#[trigger] messages@[k])@ is Custom) <==> r is Err,
        r matches Err(e) ==> (e matches AgentError::Internal(m) && m@ == no_converter_text()),
        r matches Ok(out) ==> out@.len() == messages@.len() && forall|k: int|
            0 <= k < messages@.len() ==> converted((#[trigger] messages@[k])@, out@[k]),
{
    let mut out: Vec<LlmMessage> = Vec::new();
    let mut i: usize = 0;
    while i < messages.len()
        invariant
            i <= messages@.len(),
            out@.len() == i,
            forall|k: int| 0 <= k < i ==> converted((#[trigger] messages@[k])@, out@[k]),
            forall|k: int| 0 <= k < i ==> !((#[trigger] messages@[k])@ is Custom),
        decreases messages.len() - i,
    {
        match convert_message(&messages[i]) {
            Some(m) => {
                out.push(m);
            },
            None => {
                return Err(
                    AgentError::Internal(
                        String::from_str(
                            "custom message has no converter; provide CustomMessageConverter via DefaultConvertToLlm::with_custom_converter",
                        ),
                    ),
                );
            },
        }
        proof {
            assert(!(messages@[i as int]@ is Custom)) by {
                if messages@[i as int]@ is Custom {
                    assert(!converted(messages@[i as int]@, out@[i as int]));
                }
            }
        }
        i = i + 1;
    }
    Ok(out)
}

} // verus!

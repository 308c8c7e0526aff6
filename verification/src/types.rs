//! Shared data model: content blocks, messages, token usage and the small
//! enums that the rest of the library speaks of.
//!
//! JSON payloads (tool-call arguments, custom data, tool details) are held as
//! their JSON text; timestamps are milliseconds since the Unix epoch.
use vstd::prelude::*;
use crate::text::{uuid_string, uuid_text, uuid_value};

verus! {

/// Unique identifier of a session entry (a time-ordered UUIDv7 as an integer).
#[derive(Clone, Copy, PartialEq, Eq, Structural, Debug, Hash, PartialOrd, Ord)]
pub struct EntryId(pub u128);

/// A version-7 UUID value (RFC 9562): version nibble 7 in bits 76 to 79 and
/// the `10` variant in bits 62 and 63.
pub open spec fn is_v7(v: u128) -> bool {
    (v >> 76u128) & 0xfu128 == 7u128 && (v >> 62u128) & 0x3u128 == 2u128
}

impl EntryId {
    /// A new time-ordered identifier (`uuid::Uuid::now_v7`), which is a
    /// version-7 UUID. Its other bits come from the clock and from chance, and
    /// are not stated; nor is the ordering of ids made one after another in a
    /// process, which the crate promises but which no single call can state.
    #[verifier::external_body]
    pub fn new() -> (id: EntryId)
        ensures
            is_v7(id.0),
    {
        EntryId(uuid::Uuid::now_v7().as_u128())
    }

    /// The identifier as hyphenated lowercase hexadecimal text.
    pub fn to_string(&self) -> (s: String)
        ensures
            s@ == uuid_text(self.0 as nat),
    {
        uuid_string(self.0)
    }
}

impl Default for EntryId {
    /// A fresh identifier, as `EntryId::new` makes it.
    fn default() -> (id: EntryId)
        ensures
            is_v7(id.0),
    {
        EntryId::new()
    }
}

/// What `uuid::Uuid::parse_str` makes of a text: the identifier's value, or
/// the message of its error.
pub uninterp spec fn uuid_parse(s: Seq<char>) -> Result<u128, Seq<char>>;

/// Parses an identifier with `uuid::Uuid::parse_str`, which takes the
/// simple, hyphenated, braced and URN forms in either case. The result is
/// named; the one fact stated of it is that a hyphenated lowercase text
/// gives the value its digits write.
#[verifier::external_body]
fn parse_uuid(s: &str) -> (r: Result<u128, String>)
    ensures
        match r {
            Ok(n) => uuid_parse(s@) == Ok::<u128, Seq<char>>(n),
            Err(e) => uuid_parse(s@) == Err::<u128, Seq<char>>(e@),
        },
        uuid_value(s@) matches Some(n) ==> r is Ok && r->Ok_0 == n,
{
    match uuid::Uuid::parse_str(s) {
        Ok(u) => Ok(u.as_u128()),
        Err(e) => Err(e.to_string()),
    }
}

impl std::str::FromStr for EntryId {
    type Err = String;

    /// Parses the text of an identifier; the error is the parser's message.
    fn from_str(s: &str) -> (r: Result<EntryId, String>)
        ensures
            match r {
                Ok(id) => uuid_parse(s@) == Ok::<u128, Seq<char>>(id.0),
                Err(e) => uuid_parse(s@) == Err::<u128, Seq<char>>(e@),
            },
            uuid_value(s@) matches Some(n) ==> r is Ok && r->Ok_0 == EntryId(n),
    {
        match parse_uuid(s) {
            Ok(n) => Ok(EntryId(n)),
            Err(e) => Err(e),
        }
    }
}

/// The text of an identifier parses back to that identifier: `from_str`
/// of `to_string` gives the same id.
pub proof fn law_entry_id_text_round_trip(id: EntryId)
    ensures
        uuid_value(uuid_text(id.0 as nat)) == Some(id.0),
{
    crate::text::lemma_uuid_text_value(id.0);
}

/// The current time in milliseconds since the Unix epoch
/// (`chrono::Utc::now`). Nothing is promised of the value.
#[verifier::external_body]
pub fn now_millis() -> i64 {
    chrono::Utc::now().timestamp_millis()
}

/// Image data source.
#[derive(Debug)]
pub enum ImageSource {
    /// Inline base64-encoded image.
    Base64 { media_type: String, data: String },
}

impl Clone for ImageSource {
    fn clone(&self) -> (res: Self)
        ensures
            res == *self,
    {
        match self {
            ImageSource::Base64 { media_type, data } => ImageSource::Base64 {
                media_type: media_type.clone(),
                data: data.clone(),
            },
        }
    }
}

/// Smallest unit of message content.
#[derive(Debug)]
pub enum ContentBlock {
    /// Plain text.
    Text { text: String },
    /// Provider reasoning content.
    Thinking { thinking: String, signature: Option<String> },
    /// Image content.
    Image { source: ImageSource },
    /// A tool invocation requested by the model; `input` is the JSON text of the arguments.
    ToolUse { id: String, name: String, input: String },
}

pub fn clone_opt_string(s: &Option<String>) -> (res: Option<String>)
    ensures
        res == *s,
{
    match s {
        Some(x) => Some(x.clone()),
        None => None,
    }
}

impl Clone for ContentBlock {
    fn clone(&self) -> (res: Self)
        ensures
            res == *self,
    {
        match self {
            ContentBlock::Text { text } => ContentBlock::Text { text: text.clone() },
            ContentBlock::Thinking { thinking, signature } => ContentBlock::Thinking {
                thinking: thinking.clone(),
                signature: clone_opt_string(signature),
            },
            ContentBlock::Image { source } => ContentBlock::Image { source: source.clone() },
            ContentBlock::ToolUse { id, name, input } => ContentBlock::ToolUse {
                id: id.clone(),
                name: name.clone(),
                input: input.clone(),
            },
        }
    }
}

/// Copies a list of content blocks; the copy has the same elements.
pub fn clone_blocks(v: &Vec<ContentBlock>) -> (res: Vec<ContentBlock>)
    ensures
        res@ == v@,
{
    let mut out: Vec<ContentBlock> = Vec::new();
    let mut i: usize = 0;
    while i < v.len()
        invariant
            i <= v.len(),
            out@ == v@.subrange(0, i as int),
        decreases v.len() - i,
    {
        out.push(v[i].clone());
        i = i + 1;
    }
    proof {
        assert(v@.subrange(0, v.len() as int) =~= v@);
    }
    out
}

/// Copies a list of strings; the copy has the same elements.
pub fn clone_strings(v: &Vec<String>) -> (res: Vec<String>)
    ensures
        res@ == v@,
{
    let mut out: Vec<String> = Vec::new();
    let mut i: usize = 0;
    while i < v.len()
        invariant
            i <= v.len(),
            out@ == v@.subrange(0, i as int),
        decreases v.len() - i,
    {
        out.push(v[i].clone());
        i = i + 1;
    }
    proof {
        assert(v@.subrange(0, v.len() as int) =~= v@);
    }
    out
}

/// Token usage of one model call.
#[derive(Clone, Copy, PartialEq, Eq, Structural, Debug, Default)]
pub struct TokenUsage {
    pub input_tokens: u32,
    pub output_tokens: u32,
    pub cache_read_tokens: u32,
    pub cache_creation_tokens: u32,
}

impl TokenUsage {
    /// Sum of all four counters.
    pub open spec fn spec_total(&self) -> int {
        self.input_tokens + self.output_tokens + self.cache_read_tokens
            + self.cache_creation_tokens
    }

    /// Total of all tokens.
    pub fn total_tokens(&self) -> (t: u32)
        requires
            self.spec_total() <= u32::MAX,
        ensures
            t == self.spec_total(),
    {
        self.input_tokens + self.output_tokens + self.cache_read_tokens + self.cache_creation_tokens
    }
}

/// Why the model stopped generating.
#[derive(Clone, Copy, PartialEq, Eq, Structural, Debug)]
pub enum StopReason {
    EndTurn,
    MaxTokens,
    StopSequence,
    ToolUse,
    Other,
}

/// Reasoning depth requested from the provider.
#[derive(Clone, Copy, PartialEq, Eq, Structural, Debug)]
pub enum ThinkingLevel {
    Off,
    Minimal,
    Low,
    Medium,
    High,
    XHigh,
}

/// Severity of a skill/template loading diagnostic.
#[derive(Clone, Copy, PartialEq, Eq, Structural, Debug)]
pub enum DiagnosticLevel {
    Warn,
    Error,
}

/// Lifecycle phase of a harness.
#[derive(Clone, Copy, PartialEq, Eq, Structural, Debug)]
pub enum HarnessPhase {
    Idle,
    Turning,
    Compacting,
    Branching,
}

/// Concurrency strategy of a tool within one batch.
#[derive(Clone, Copy, PartialEq, Eq, Structural, Debug)]
pub enum ToolExecutionMode {
    Parallel,
    Sequential,
}

/// A user message.
#[derive(Debug)]
pub struct UserMessage {
    pub content: Vec<ContentBlock>,
    pub timestamp: i64,
}

/// A model (assistant) message.
#[derive(Debug)]
pub struct AssistantMessage {
    pub content: Vec<ContentBlock>,
    pub stop_reason: Option<StopReason>,
    pub timestamp: i64,
    pub provider: Option<String>,
    pub api: Option<String>,
    pub model: Option<String>,
    pub usage: Option<TokenUsage>,
    pub error_message: Option<String>,
}

/// Result of one tool execution, as sent back to the model.
#[derive(Debug)]
pub struct ToolResultMessage {
    pub tool_use_id: String,
    pub content: Vec<ContentBlock>,
    pub is_error: bool,
    pub timestamp: i64,
}

/// Summary inserted by compaction.
#[derive(Debug)]
pub struct CompactionSummaryMessage {
    pub summary: String,
    pub timestamp: i64,
}

/// Summary inserted by branch navigation.
#[derive(Debug)]
pub struct BranchSummaryMessage {
    pub summary: String,
    pub timestamp: i64,
}

/// Application-defined message; `data` is JSON text.
#[derive(Debug)]
pub struct CustomMessage {
    pub message_type: String,
    pub data: String,
    pub timestamp: i64,
}

/// Every message kind that enters the transcript.
#[derive(Debug)]
pub enum AgentMessage {
    User(UserMessage),
    Assistant(AssistantMessage),
    ToolResult(ToolResultMessage),
    BranchSummary(BranchSummaryMessage),
    CompactionSummary(CompactionSummaryMessage),
    Custom(CustomMessage),
}

/// Mathematical model of an assistant message (content as a sequence).
pub struct AssistantView {
    pub content: Seq<ContentBlock>,
    pub stop_reason: Option<StopReason>,
    pub timestamp: i64,
    pub provider: Option<String>,
    pub api: Option<String>,
    pub model: Option<String>,
    pub usage: Option<TokenUsage>,
    pub error_message: Option<String>,
}

/// Mathematical model of an [`AgentMessage`].
pub enum MessageView {
    User { content: Seq<ContentBlock>, timestamp: i64 },
    Assistant(AssistantView),
    ToolResult { tool_use_id: String, content: Seq<ContentBlock>, is_error: bool, timestamp: i64 },
    BranchSummary { summary: String, timestamp: i64 },
    CompactionSummary { summary: String, timestamp: i64 },
    Custom { message_type: String, data: String, timestamp: i64 },
}

impl View for AssistantMessage {
    type V = AssistantView;

    open spec fn view(&self) -> AssistantView {
        AssistantView {
            content: self.content@,
            stop_reason: self.stop_reason,
            timestamp: self.timestamp,
            provider: self.provider,
            api: self.api,
            model: self.model,
            usage: self.usage,
            error_message: self.error_message,
        }
    }
}

impl Clone for AssistantMessage {
    fn clone(&self) -> (res: Self)
        ensures
            res@ == self@,
    {
        AssistantMessage {
            content: clone_blocks(&self.content),
            stop_reason: self.stop_reason,
            timestamp: self.timestamp,
            provider: clone_opt_string(&self.provider),
            api: clone_opt_string(&self.api),
            model: clone_opt_string(&self.model),
            usage: self.usage,
            error_message: clone_opt_string(&self.error_message),
        }
    }
}

impl View for AgentMessage {
    type V = MessageView;

    open spec fn view(&self) -> MessageView {
        match self {
            AgentMessage::User(u) => MessageView::User { content: u.content@, timestamp: u.timestamp },
            AgentMessage::Assistant(a) => MessageView::Assistant(a@),
            AgentMessage::ToolResult(t) => MessageView::ToolResult {
                tool_use_id: t.tool_use_id,
                content: t.content@,
                is_error: t.is_error,
                timestamp: t.timestamp,
            },
            AgentMessage::BranchSummary(b) => MessageView::BranchSummary {
                summary: b.summary,
                timestamp: b.timestamp,
            },
            AgentMessage::CompactionSummary(c) => MessageView::CompactionSummary {
                summary: c.summary,
                timestamp: c.timestamp,
            },
            AgentMessage::Custom(c) => MessageView::Custom {
                message_type: c.message_type,
                data: c.data,
                timestamp: c.timestamp,
            },
        }
    }
}

impl Clone for AgentMessage {
    fn clone(&self) -> (res: Self)
        ensures
            res@ == self@,
    {
        match self {
            AgentMessage::User(u) => AgentMessage::User(
                UserMessage { content: clone_blocks(&u.content), timestamp: u.timestamp },
            ),
            AgentMessage::Assistant(a) => AgentMessage::Assistant(a.clone()),
            AgentMessage::ToolResult(t) => AgentMessage::ToolResult(
                ToolResultMessage {
                    tool_use_id: t.tool_use_id.clone(),
                    content: clone_blocks(&t.content),
                    is_error: t.is_error,
                    timestamp: t.timestamp,
                },
            ),
            AgentMessage::BranchSummary(b) => AgentMessage::BranchSummary(
                BranchSummaryMessage { summary: b.summary.clone(), timestamp: b.timestamp },
            ),
            AgentMessage::CompactionSummary(c) => AgentMessage::CompactionSummary(
                CompactionSummaryMessage { summary: c.summary.clone(), timestamp: c.timestamp },
            ),
            AgentMessage::Custom(c) => AgentMessage::Custom(
                CustomMessage {
                    message_type: c.message_type.clone(),
                    data: c.data.clone(),
                    timestamp: c.timestamp,
                },
            ),
        }
    }
}

/// Copies a list of messages; the copy has the same views.
pub fn clone_messages(v: &Vec<AgentMessage>) -> (res: Vec<AgentMessage>)
    ensures
        res@.len() == v@.len(),
        forall|i: int| 0 <= i < v@.len() ==> #[trigger] res@[i]@ == v@[i]@,
{
    let mut out: Vec<AgentMessage> = Vec::new();
    let mut i: usize = 0;
    while i < v.len()
        invariant
            i <= v.len(),
            out@.len() == i,
            forall|k: int| 0 <= k < i ==> #[trigger] out@[k]@ == v@[k]@,
        decreases v.len() - i,
    {
        out.push(v[i].clone());
        i = i + 1;
    }
    out
}

/// The views of a list of messages.
pub open spec fn message_views(v: Seq<AgentMessage>) -> Seq<MessageView> {
    v.map_values(|m: AgentMessage| m@)
}

/// Result of one tool execution; `details` is JSON text not sent to the model.
#[derive(Debug)]
pub struct ToolResult {
    pub content: Vec<ContentBlock>,
    pub details: String,
    pub terminate: bool,
}

/// Model of a [`ToolResult`].
pub struct ToolResultView {
    pub content: Seq<ContentBlock>,
    pub details: String,
    pub terminate: bool,
}

impl View for ToolResult {
    type V = ToolResultView;

    open spec fn view(&self) -> ToolResultView {
        ToolResultView { content: self.content@, details: self.details, terminate: self.terminate }
    }
}

impl Clone for ToolResult {
    fn clone(&self) -> (res: Self)
        ensures
            res@ == self@,
    {
        ToolResult {
            content: clone_blocks(&self.content),
            details: self.details.clone(),
            terminate: self.terminate,
        }
    }
}

/// Output of a shell command.
#[derive(Debug)]
pub struct ShellOutput {
    pub stdout: String,
    pub stderr: String,
    pub exit_code: i32,
}

/// Dynamic authentication data.
#[derive(Debug)]
pub struct AuthInfo {
    pub api_key: Option<String>,
    pub headers: Vec<(String, String)>,
}

/// Metadata of one provider response.
#[derive(Debug)]
pub struct ProviderResponseInfo {
    pub status_code: Option<u16>,
    pub response_headers: Vec<(String, String)>,
    pub usage: Option<TokenUsage>,
    pub latency_ms: u64,
}

/// Names of the resources loaded into a harness.
#[derive(Debug)]
pub struct AgentHarnessResources {
    pub skill_names: Vec<String>,
    pub template_names: Vec<String>,
}

/// Transport options handed to the provider; `metadata` and `cache_config` are JSON text.
#[derive(Debug)]
pub struct StreamOptions {
    pub timeout_ms: Option<u64>,
    pub max_retries: Option<u32>,
    pub max_retry_delay_ms: Option<u64>,
    pub headers: Vec<(String, String)>,
    pub metadata: String,
    pub cache_config: Option<String>,
}

impl Default for StreamOptions {
    /// Options with every field unset.
    fn default() -> (res: StreamOptions)
        ensures
            res.timeout_ms is None,
            res.max_retries is None,
            res.max_retry_delay_ms is None,
            res.headers@.len() == 0,
            res.metadata@ == "null"@,
            res.cache_config is None,
    {
        proof {
            reveal_strlit("null");
        }
        StreamOptions {
            timeout_ms: None,
            max_retries: None,
            max_retry_delay_ms: None,
            headers: Vec::new(),
            metadata: String::from_str("null"),
            cache_config: None,
        }
    }
}

/// Whether a file was read or modified.
#[derive(Clone, Copy, PartialEq, Eq, Structural, Debug)]
pub enum FileOpKind {
    Read,
    Modify,
}

/// A file operation recorded for a compaction summary.
#[derive(Debug)]
pub struct FileOperation {
    pub path: String,
    pub kind: FileOpKind,
    pub at_entry: EntryId,
}

impl Clone for FileOperation {
    fn clone(&self) -> (res: Self)
        ensures
            res == *self,
    {
        FileOperation { path: self.path.clone(), kind: self.kind, at_entry: self.at_entry }
    }
}

/// Context window metadata of a model.
#[derive(Clone, Copy, PartialEq, Eq, Structural, Debug)]
pub struct ModelInfo {
    pub context_window: u32,
    pub max_tokens: u32,
}

/// An execution environment that does nothing (for tests); its working
/// directory is `/tmp`.
#[derive(Debug)]
pub struct NoOpEnv;

impl NoOpEnv {
    /// The working directory, `/tmp`.
    pub fn working_dir(&self) -> (r: String)
        ensures
            r@ == "/tmp"@,
    {
        String::from_str("/tmp")
    }
}

/// Appends copies of `extra` to `out`.
pub fn extend_messages(out: &mut Vec<AgentMessage>, extra: &Vec<AgentMessage>)
    ensures
        message_views(final(out)@) == message_views(old(out)@) + message_views(extra@),
{
    let ghost start = message_views(out@);
    let mut i: usize = 0;
    while i < extra.len()
        invariant
            i <= extra@.len(),
            message_views(out@) == start + message_views(extra@).subrange(0, i as int),
        decreases extra.len() - i,
    {
        let ghost before = message_views(out@);
        out.push(extra[i].clone());
        proof {
            assert(message_views(out@) =~= before.push(extra@[i as int]@));
            assert(message_views(extra@).subrange(0, i + 1) =~= message_views(extra@).subrange(
                0,
                i as int,
            ).push(extra@[i as int]@));
            assert(start + message_views(extra@).subrange(0, i + 1) =~= (start + message_views(
                extra@,
            ).subrange(0, i as int)).push(extra@[i as int]@));
        }
        i = i + 1;
    }
    proof {
        assert(message_views(extra@).subrange(0, i as int) =~= message_views(extra@));
    }
}

} // verus!

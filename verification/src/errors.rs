//! Error types of every layer, with the exact text each one renders to.
use vstd::prelude::*;
use vstd::std_specs::convert::FromSpecImpl;
use crate::text::{decimal, i64_text, push_str, signed_decimal, u64_text, uuid_string, uuid_text};
use crate::types::{EntryId, HarnessPhase};

verus! {

/// Tool execution failure.
#[derive(Debug)]
pub enum ToolError {
    InvalidArguments(String),
    Aborted,
    Execution(String),
    /// Any other failure, carried by its message.
    Other(String),
}

impl ToolError {
    pub open spec fn text(&self) -> Seq<char> {
        match self {
            ToolError::InvalidArguments(s) => "invalid arguments: "@ + s@,
            ToolError::Aborted => "tool aborted"@,
            ToolError::Execution(s) => "tool execution failed: "@ + s@,
            ToolError::Other(s) => s@,
        }
    }

    /// The rendered error message.
    pub fn message(&self) -> (s: String)
        ensures
            s@ == self.text(),
    {
        match self {
            ToolError::InvalidArguments(m) => {
                let mut s = String::from_str("invalid arguments: ");
                push_str(&mut s, m.as_str());
                s
            },
            ToolError::Aborted => String::from_str("tool aborted"),
            ToolError::Execution(m) => {
                let mut s = String::from_str("tool execution failed: ");
                push_str(&mut s, m.as_str());
                s
            },
            ToolError::Other(m) => m.clone(),
        }
    }
}

/// Agent runtime failure.
#[derive(Debug)]
pub enum AgentError {
    Provider(String),
    Tool { tool_name: String, message: String },
    Aborted,
    NotIdle,
    Internal(String),
}

impl Clone for AgentError {
    fn clone(&self) -> (res: Self)
        ensures
            res == *self,
    {
        match self {
            AgentError::Provider(s) => AgentError::Provider(s.clone()),
            AgentError::Tool { tool_name, message } => AgentError::Tool {
                tool_name: tool_name.clone(),
                message: message.clone(),
            },
            AgentError::Aborted => AgentError::Aborted,
            AgentError::NotIdle => AgentError::NotIdle,
            AgentError::Internal(s) => AgentError::Internal(s.clone()),
        }
    }
}

impl AgentError {
    pub open spec fn text(&self) -> Seq<char> {
        match self {
            AgentError::Provider(s) => "llm provider error: "@ + s@,
            AgentError::Tool { tool_name, message } => "tool error: "@ + tool_name@ + ": "@
                + message@,
            AgentError::Aborted => "aborted"@,
            AgentError::NotIdle => "agent is not idle"@,
            AgentError::Internal(s) => "internal: "@ + s@,
        }
    }

    /// The rendered error message.
    pub fn message(&self) -> (s: String)
        ensures
            s@ == self.text(),
    {
        match self {
            AgentError::Provider(m) => {
                let mut s = String::from_str("llm provider error: ");
                push_str(&mut s, m.as_str());
                s
            },
            AgentError::Tool { tool_name, message } => {
                let mut s = String::from_str("tool error: ");
                push_str(&mut s, tool_name.as_str());
                push_str(&mut s, ": ");
                push_str(&mut s, message.as_str());
                s
            },
            AgentError::Aborted => String::from_str("aborted"),
            AgentError::NotIdle => String::from_str("agent is not idle"),
            AgentError::Internal(m) => {
                let mut s = String::from_str("internal: ");
                push_str(&mut s, m.as_str());
                s
            },
        }
    }
}

/// Execution-environment failure; paths are carried as text.
#[derive(Debug)]
pub enum EnvError {
    NotFound(String),
    PermissionDenied(String),
    AlreadyExists(String),
    NotADirectory(String),
    IsADirectory(String),
    Aborted,
    InvalidUtf8(String),
    ShellFailed { exit_code: i32, stderr: String },
    Io(String),
    Other(String),
}

impl EnvError {
    pub open spec fn text(&self) -> Seq<char> {
        match self {
            EnvError::NotFound(p) => "path not found: "@ + p@,
            EnvError::PermissionDenied(p) => "permission denied: "@ + p@,
            EnvError::AlreadyExists(p) => "path already exists: "@ + p@,
            EnvError::NotADirectory(p) => "not a directory: "@ + p@,
            EnvError::IsADirectory(p) => "is a directory: "@ + p@,
            EnvError::Aborted => "operation aborted"@,
            EnvError::InvalidUtf8(p) => "invalid utf-8 in "@ + p@,
            EnvError::ShellFailed { exit_code, .. } => "shell command failed: exit "@
                + signed_decimal(*exit_code as int),
            EnvError::Io(e) => "io error: "@ + e@,
            EnvError::Other(s) => "other: "@ + s@,
        }
    }

    /// The rendered error message.
    pub fn message(&self) -> (s: String)
        ensures
            s@ == self.text(),
    {
        let (prefix, rest): (&str, String) = match self {
            EnvError::NotFound(p) => ("path not found: ", p.clone()),
            EnvError::PermissionDenied(p) => ("permission denied: ", p.clone()),
            EnvError::AlreadyExists(p) => ("path already exists: ", p.clone()),
            EnvError::NotADirectory(p) => ("not a directory: ", p.clone()),
            EnvError::IsADirectory(p) => ("is a directory: ", p.clone()),
            EnvError::Aborted => ("operation aborted", String::new()),
            EnvError::InvalidUtf8(p) => ("invalid utf-8 in ", p.clone()),
            EnvError::ShellFailed { exit_code, .. } => (
                "shell command failed: exit ",
                i64_text(*exit_code as i64),
            ),
            EnvError::Io(e) => ("io error: ", e.clone()),
            EnvError::Other(m) => ("other: ", m.clone()),
        };
        let mut s = String::from_str(prefix);
        push_str(&mut s, rest.as_str());
        proof {
            assert(s@ =~= self.text());
        }
        s
    }
}

/// Session storage failure.
#[derive(Debug)]
pub enum SessionError {
    EntryNotFound(EntryId),
    SessionNotFound(String),
    SessionAlreadyExists(String),
    NotALeaf(EntryId),
    InvalidParent(EntryId),
    Io(String),
    Serialization(String),
    ConcurrentModification,
}

impl SessionError {
    pub open spec fn text(&self) -> Seq<char> {
        match self {
            SessionError::EntryNotFound(id) => "entry not found: "@ + uuid_text(id.0 as nat),
            SessionError::SessionNotFound(s) => "session not found: "@ + s@,
            SessionError::SessionAlreadyExists(s) => "session already exists: "@ + s@,
            SessionError::NotALeaf(id) => "not a leaf: "@ + uuid_text(id.0 as nat),
            SessionError::InvalidParent(id) => "invalid parent: "@ + uuid_text(id.0 as nat),
            SessionError::Io(e) => "storage io: "@ + e@,
            SessionError::Serialization(s) => "serialization: "@ + s@,
            SessionError::ConcurrentModification => "concurrent modification"@,
        }
    }

    /// The rendered error message.
    pub fn message(&self) -> (s: String)
        ensures
            s@ == self.text(),
    {
        let (prefix, rest): (&str, String) = match self {
            SessionError::EntryNotFound(id) => ("entry not found: ", uuid_string(id.0)),
            SessionError::SessionNotFound(m) => ("session not found: ", m.clone()),
            SessionError::SessionAlreadyExists(m) => ("session already exists: ", m.clone()),
            SessionError::NotALeaf(id) => ("not a leaf: ", uuid_string(id.0)),
            SessionError::InvalidParent(id) => ("invalid parent: ", uuid_string(id.0)),
            SessionError::Io(e) => ("storage io: ", e.clone()),
            SessionError::Serialization(m) => ("serialization: ", m.clone()),
            SessionError::ConcurrentModification => ("concurrent modification", String::new()),
        };
        let mut s = String::from_str(prefix);
        push_str(&mut s, rest.as_str());
        proof {
            assert(s@ =~= self.text());
        }
        s
    }
}

impl Clone for SessionError {
    fn clone(&self) -> (res: Self)
        ensures
            res == *self,
    {
        match self {
            SessionError::EntryNotFound(id) => SessionError::EntryNotFound(*id),
            SessionError::SessionNotFound(s) => SessionError::SessionNotFound(s.clone()),
            SessionError::SessionAlreadyExists(s) => SessionError::SessionAlreadyExists(s.clone()),
            SessionError::NotALeaf(id) => SessionError::NotALeaf(*id),
            SessionError::InvalidParent(id) => SessionError::InvalidParent(*id),
            SessionError::Io(e) => SessionError::Io(e.clone()),
            SessionError::Serialization(s) => SessionError::Serialization(s.clone()),
            SessionError::ConcurrentModification => SessionError::ConcurrentModification,
        }
    }
}

/// Compaction failure.
#[derive(Debug)]
pub enum CompactionError {
    InsufficientTokens,
    SummaryFailed(String),
    Session(SessionError),
    Agent(AgentError),
}

impl CompactionError {
    pub open spec fn text(&self) -> Seq<char> {
        match self {
            CompactionError::InsufficientTokens => "not enough tokens to compact"@,
            CompactionError::SummaryFailed(s) => "summary model call failed: "@ + s@,
            CompactionError::Session(e) => e.text(),
            CompactionError::Agent(e) => e.text(),
        }
    }

    /// The rendered error message.
    pub fn message(&self) -> (s: String)
        ensures
            s@ == self.text(),
    {
        match self {
            CompactionError::InsufficientTokens => String::from_str("not enough tokens to compact"),
            CompactionError::SummaryFailed(m) => {
                let mut s = String::from_str("summary model call failed: ");
                push_str(&mut s, m.as_str());
                s
            },
            CompactionError::Session(e) => e.message(),
            CompactionError::Agent(e) => e.message(),
        }
    }
}

impl From<SessionError> for CompactionError {
    fn from(e: SessionError) -> (res: Self) {
        CompactionError::Session(e)
    }
}

impl FromSpecImpl<SessionError> for CompactionError {
    open spec fn obeys_from_spec() -> bool {
        true
    }

    open spec fn from_spec(e: SessionError) -> Self {
        CompactionError::Session(e)
    }
}

impl From<AgentError> for CompactionError {
    fn from(e: AgentError) -> (res: Self) {
        CompactionError::Agent(e)
    }
}

impl FromSpecImpl<AgentError> for CompactionError {
    open spec fn obeys_from_spec() -> bool {
        true
    }

    open spec fn from_spec(e: AgentError) -> Self {
        CompactionError::Agent(e)
    }
}

/// Prompt-template failure.
#[derive(Debug)]
pub enum TemplateError {
    NotFound(String),
    MissingArg(usize),
    InvalidSyntax(String),
}

impl TemplateError {
    pub open spec fn text(&self) -> Seq<char> {
        match self {
            TemplateError::NotFound(s) => "template not found: "@ + s@,
            TemplateError::MissingArg(n) => "missing required argument at position "@ + decimal(
                *n as nat,
            ),
            TemplateError::InvalidSyntax(s) => "invalid argument syntax: "@ + s@,
        }
    }

    /// The rendered error message.
    pub fn message(&self) -> (s: String)
        ensures
            s@ == self.text(),
    {
        let (prefix, rest): (&str, String) = match self {
            TemplateError::NotFound(m) => ("template not found: ", m.clone()),
            TemplateError::MissingArg(n) => (
                "missing required argument at position ",
                u64_text(*n as u64),
            ),
            TemplateError::InvalidSyntax(m) => ("invalid argument syntax: ", m.clone()),
        };
        let mut s = String::from_str(prefix);
        push_str(&mut s, rest.as_str());
        proof {
            assert(s@ =~= self.text());
        }
        s
    }
}

/// Name of a harness phase as its `Debug` rendering shows it.
pub open spec fn phase_name(p: HarnessPhase) -> Seq<char> {
    match p {
        HarnessPhase::Idle => "Idle"@,
        HarnessPhase::Turning => "Turning"@,
        HarnessPhase::Compacting => "Compacting"@,
        HarnessPhase::Branching => "Branching"@,
    }
}

/// The name of a harness phase.
pub fn phase_text(p: HarnessPhase) -> (s: &'static str)
    ensures
        s@ == phase_name(p),
{
    match p {
        HarnessPhase::Idle => "Idle",
        HarnessPhase::Turning => "Turning",
        HarnessPhase::Compacting => "Compacting",
        HarnessPhase::Branching => "Branching",
    }
}

/// Top-level harness failure.
#[derive(Debug)]
pub enum HarnessError {
    NotIdle(HarnessPhase),
    SkillNotFound(String),
    TemplateNotFound(String),
    Agent(AgentError),
    Session(SessionError),
    Compaction(CompactionError),
    Env(EnvError),
    Template(TemplateError),
}

impl HarnessError {
    pub open spec fn text(&self) -> Seq<char> {
        match self {
            HarnessError::NotIdle(p) => "harness is not idle (current phase: "@ + phase_name(*p)
                + ")"@,
            HarnessError::SkillNotFound(s) => "skill not found: "@ + s@,
            HarnessError::TemplateNotFound(s) => "template not found: "@ + s@,
            HarnessError::Agent(e) => e.text(),
            HarnessError::Session(e) => e.text(),
            HarnessError::Compaction(e) => e.text(),
            HarnessError::Env(e) => e.text(),
            HarnessError::Template(e) => e.text(),
        }
    }

    /// The rendered error message.
    pub fn message(&self) -> (s: String)
        ensures
            s@ == self.text(),
    {
        match self {
            HarnessError::NotIdle(p) => {
                let mut s = String::from_str("harness is not idle (current phase: ");
                push_str(&mut s, phase_text(*p));
                push_str(&mut s, ")");
                s
            },
            HarnessError::SkillNotFound(m) => {
                let mut s = String::from_str("skill not found: ");
                push_str(&mut s, m.as_str());
                s
            },
            HarnessError::TemplateNotFound(m) => {
                let mut s = String::from_str("template not found: ");
                push_str(&mut s, m.as_str());
                s
            },
            HarnessError::Agent(e) => e.message(),
            HarnessError::Session(e) => e.message(),
            HarnessError::Compaction(e) => e.message(),
            HarnessError::Env(e) => e.message(),
            HarnessError::Template(e) => e.message(),
        }
    }
}

impl From<AgentError> for HarnessError {
    fn from(e: AgentError) -> (res: Self) {
        HarnessError::Agent(e)
    }
}

impl FromSpecImpl<AgentError> for HarnessError {
    open spec fn obeys_from_spec() -> bool {
        true
    }

    open spec fn from_spec(e: AgentError) -> Self {
        HarnessError::Agent(e)
    }
}

impl From<SessionError> for HarnessError {
    fn from(e: SessionError) -> (res: Self) {
        HarnessError::Session(e)
    }
}

impl FromSpecImpl<SessionError> for HarnessError {
    open spec fn obeys_from_spec() -> bool {
        true
    }

    open spec fn from_spec(e: SessionError) -> Self {
        HarnessError::Session(e)
    }
}

impl From<CompactionError> for HarnessError {
    fn from(e: CompactionError) -> (res: Self) {
        HarnessError::Compaction(e)
    }
}

impl FromSpecImpl<CompactionError> for HarnessError {
    open spec fn obeys_from_spec() -> bool {
        true
    }

    open spec fn from_spec(e: CompactionError) -> Self {
        HarnessError::Compaction(e)
    }
}

impl From<EnvError> for HarnessError {
    fn from(e: EnvError) -> (res: Self) {
        HarnessError::Env(e)
    }
}

impl FromSpecImpl<EnvError> for HarnessError {
    open spec fn obeys_from_spec() -> bool {
        true
    }

    open spec fn from_spec(e: EnvError) -> Self {
        HarnessError::Env(e)
    }
}

impl From<TemplateError> for HarnessError {
    fn from(e: TemplateError) -> (res: Self) {
        HarnessError::Template(e)
    }
}

impl FromSpecImpl<TemplateError> for HarnessError {
    open spec fn obeys_from_spec() -> bool {
        true
    }

    open spec fn from_spec(e: TemplateError) -> Self {
        HarnessError::Template(e)
    }
}

} // verus!

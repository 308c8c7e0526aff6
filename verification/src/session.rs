//! Session entries (the nodes of the session tree), their mathematical
//! models, and the construction of the effective model context from a
//! root-first path of entries.
use vstd::prelude::*;
use crate::types::{
    clone_opt_string, clone_strings, AgentMessage, EntryId, MessageView, ThinkingLevel,
};

verus! {

/// Compaction data stored in a session entry; `details` is JSON text.
#[derive(Debug)]
pub struct CompactionEntry {
    pub summary_message: AgentMessage,
    pub first_kept_entry: EntryId,
    pub tokens_before: usize,
    pub from_hook: bool,
    pub details: Option<String>,
}

/// Model of a [`CompactionEntry`].
pub struct CompactionEntryView {
    pub summary_message: MessageView,
    pub first_kept_entry: EntryId,
    pub tokens_before: usize,
    pub from_hook: bool,
    pub details: Option<String>,
}

impl View for CompactionEntry {
    type V = CompactionEntryView;

    open spec fn view(&self) -> CompactionEntryView {
        CompactionEntryView {
            summary_message: self.summary_message@,
            first_kept_entry: self.first_kept_entry,
            tokens_before: self.tokens_before,
            from_hook: self.from_hook,
            details: self.details,
        }
    }
}

impl Clone for CompactionEntry {
    fn clone(&self) -> (res: Self)
        ensures
            res@ == self@,
    {
        CompactionEntry {
            summary_message: self.summary_message.clone(),
            first_kept_entry: self.first_kept_entry,
            tokens_before: self.tokens_before,
            from_hook: self.from_hook,
            details: clone_opt_string(&self.details),
        }
    }
}

/// Model-generated summary of a branch.
#[derive(Debug)]
pub struct BranchSummaryEntry {
    pub leaf_id: EntryId,
    pub from_entry: EntryId,
    pub summary: String,
    pub token_count: usize,
}

impl Clone for BranchSummaryEntry {
    fn clone(&self) -> (res: Self)
        ensures
            res == *self,
    {
        BranchSummaryEntry {
            leaf_id: self.leaf_id,
            from_entry: self.from_entry,
            summary: self.summary.clone(),
            token_count: self.token_count,
        }
    }
}

/// Everything a session log entry can hold; `Custom::data` is JSON text.
#[derive(Debug)]
pub enum SessionEntryPayload {
    Message(AgentMessage),
    ModelChange { to: String, provider: Option<String>, model_id: Option<String> },
    ThinkingLevelChange { to: ThinkingLevel },
    ActiveToolsChange { active: Vec<String> },
    Compaction(CompactionEntry),
    Label { name: String },
    SessionInfo { name: String },
    Custom { custom_type: String, data: String },
    BranchPoint { from: EntryId, label: Option<String> },
    BranchSwitch { from: EntryId, to: EntryId, summary: Option<String> },
    BranchSummary(BranchSummaryEntry),
}

/// Model of a [`SessionEntryPayload`].
pub enum PayloadView {
    Message(MessageView),
    ModelChange { to: String, provider: Option<String>, model_id: Option<String> },
    ThinkingLevelChange { to: ThinkingLevel },
    ActiveToolsChange { active: Seq<String> },
    Compaction(CompactionEntryView),
    Label { name: String },
    SessionInfo { name: String },
    Custom { custom_type: String, data: String },
    BranchPoint { from: EntryId, label: Option<String> },
    BranchSwitch { from: EntryId, to: EntryId, summary: Option<String> },
    BranchSummary(BranchSummaryEntry),
}

impl View for SessionEntryPayload {
    type V = PayloadView;

    open spec fn view(&self) -> PayloadView {
        match self {
            SessionEntryPayload::Message(m) => PayloadView::Message(m@),
            SessionEntryPayload::ModelChange { to, provider, model_id } => PayloadView::ModelChange {
                to: *to,
                provider: *provider,
                model_id: *model_id,
            },
            SessionEntryPayload::ThinkingLevelChange { to } => PayloadView::ThinkingLevelChange {
                to: *to,
            },
            SessionEntryPayload::ActiveToolsChange { active } => PayloadView::ActiveToolsChange {
                active: active@,
            },
            SessionEntryPayload::Compaction(c) => PayloadView::Compaction(c@),
            SessionEntryPayload::Label { name } => PayloadView::Label { name: *name },
            SessionEntryPayload::SessionInfo { name } => PayloadView::SessionInfo { name: *name },
            SessionEntryPayload::Custom { custom_type, data } => PayloadView::Custom {
                custom_type: *custom_type,
                data: *data,
            },
            SessionEntryPayload::BranchPoint { from, label } => PayloadView::BranchPoint {
                from: *from,
                label: *label,
            },
            SessionEntryPayload::BranchSwitch { from, to, summary } => PayloadView::BranchSwitch {
                from: *from,
                to: *to,
                summary: *summary,
            },
            SessionEntryPayload::BranchSummary(b) => PayloadView::BranchSummary(*b),
        }
    }
}

impl Clone for SessionEntryPayload {
    fn clone(&self) -> (res: Self)
        ensures
            res@ == self@,
    {
        match self {
            SessionEntryPayload::Message(m) => SessionEntryPayload::Message(m.clone()),
            SessionEntryPayload::ModelChange { to, provider, model_id } =>
                SessionEntryPayload::ModelChange {
                to: to.clone(),
                provider: clone_opt_string(provider),
                model_id: clone_opt_string(model_id),
            },
            SessionEntryPayload::ThinkingLevelChange { to } =>
                SessionEntryPayload::ThinkingLevelChange { to: *to },
            SessionEntryPayload::ActiveToolsChange { active } =>
                SessionEntryPayload::ActiveToolsChange { active: clone_strings(active) },
            SessionEntryPayload::Compaction(c) => SessionEntryPayload::Compaction(c.clone()),
            SessionEntryPayload::Label { name } => SessionEntryPayload::Label { name: name.clone() },
            SessionEntryPayload::SessionInfo { name } => SessionEntryPayload::SessionInfo {
                name: name.clone(),
            },
            SessionEntryPayload::Custom { custom_type, data } => SessionEntryPayload::Custom {
                custom_type: custom_type.clone(),
                data: data.clone(),
            },
            SessionEntryPayload::BranchPoint { from, label } => SessionEntryPayload::BranchPoint {
                from: *from,
                label: clone_opt_string(label),
            },
            SessionEntryPayload::BranchSwitch { from, to, summary } =>
                SessionEntryPayload::BranchSwitch {
                from: *from,
                to: *to,
                summary: clone_opt_string(summary),
            },
            SessionEntryPayload::BranchSummary(b) => SessionEntryPayload::BranchSummary(b.clone()),
        }
    }
}

/// A node of the session tree; `timestamp` is milliseconds since the epoch.
#[derive(Debug)]
pub struct SessionEntry {
    pub id: EntryId,
    pub parent_id: Option<EntryId>,
    pub timestamp: i64,
    pub payload: SessionEntryPayload,
}

/// Model of a [`SessionEntry`].
pub struct EntryView {
    pub id: EntryId,
    pub parent_id: Option<EntryId>,
    pub timestamp: i64,
    pub payload: PayloadView,
}

impl View for SessionEntry {
    type V = EntryView;

    open spec fn view(&self) -> EntryView {
        EntryView {
            id: self.id,
            parent_id: self.parent_id,
            timestamp: self.timestamp,
            payload: self.payload@,
        }
    }
}

impl Clone for SessionEntry {
    fn clone(&self) -> (res: Self)
        ensures
            res@ == self@,
    {
        SessionEntry {
            id: self.id,
            parent_id: self.parent_id,
            timestamp: self.timestamp,
            payload: self.payload.clone(),
        }
    }
}

/// The models of a sequence of entries.
pub open spec fn entry_views(es: Seq<SessionEntry>) -> Seq<EntryView> {
    es.map_values(|e: SessionEntry| e@)
}

/// Discriminant of a payload.
#[derive(Clone, Copy, PartialEq, Eq, Structural, Debug)]
pub enum SessionEntryKind {
    Message,
    ModelChange,
    ThinkingLevelChange,
    ActiveToolsChange,
    Compaction,
    Label,
    SessionInfo,
    Custom,
    BranchPoint,
    BranchSwitch,
    BranchSummary,
}

/// The kind of a payload model.
pub open spec fn payload_kind(p: PayloadView) -> SessionEntryKind {
    match p {
        PayloadView::Message(_) => SessionEntryKind::Message,
        PayloadView::ModelChange { .. } => SessionEntryKind::ModelChange,
        PayloadView::ThinkingLevelChange { .. } => SessionEntryKind::ThinkingLevelChange,
        PayloadView::ActiveToolsChange { .. } => SessionEntryKind::ActiveToolsChange,
        PayloadView::Compaction(_) => SessionEntryKind::Compaction,
        PayloadView::Label { .. } => SessionEntryKind::Label,
        PayloadView::SessionInfo { .. } => SessionEntryKind::SessionInfo,
        PayloadView::Custom { .. } => SessionEntryKind::Custom,
        PayloadView::BranchPoint { .. } => SessionEntryKind::BranchPoint,
        PayloadView::BranchSwitch { .. } => SessionEntryKind::BranchSwitch,
        PayloadView::BranchSummary(_) => SessionEntryKind::BranchSummary,
    }
}

impl SessionEntry {
    /// The kind of this entry's payload.
    pub fn kind(&self) -> (k: SessionEntryKind)
        ensures
            k == payload_kind(self@.payload),
    {
        match &self.payload {
            SessionEntryPayload::Message(_) => SessionEntryKind::Message,
            SessionEntryPayload::ModelChange { .. } => SessionEntryKind::ModelChange,
            SessionEntryPayload::ThinkingLevelChange { .. } => SessionEntryKind::ThinkingLevelChange,
            SessionEntryPayload::ActiveToolsChange { .. } => SessionEntryKind::ActiveToolsChange,
            SessionEntryPayload::Compaction(_) => SessionEntryKind::Compaction,
            SessionEntryPayload::Label { .. } => SessionEntryKind::Label,
            SessionEntryPayload::SessionInfo { .. } => SessionEntryKind::SessionInfo,
            SessionEntryPayload::Custom { .. } => SessionEntryKind::Custom,
            SessionEntryPayload::BranchPoint { .. } => SessionEntryKind::BranchPoint,
            SessionEntryPayload::BranchSwitch { .. } => SessionEntryKind::BranchSwitch,
            SessionEntryPayload::BranchSummary(_) => SessionEntryKind::BranchSummary,
        }
    }
}

/// Persistent metadata of a session; times are milliseconds since the epoch.
#[derive(Debug)]
pub struct SessionMetadata {
    pub id: String,
    pub name: Option<String>,
    pub created_at: i64,
    pub updated_at: i64,
    pub model: Option<String>,
    pub active_cursor: Option<EntryId>,
    pub parent_session_path: Option<String>,
}

impl Clone for SessionMetadata {
    fn clone(&self) -> (res: Self)
        ensures
            res == *self,
    {
        SessionMetadata {
            id: self.id.clone(),
            name: clone_opt_string(&self.name),
            created_at: self.created_at,
            updated_at: self.updated_at,
            model: clone_opt_string(&self.model),
            active_cursor: self.active_cursor,
            parent_session_path: clone_opt_string(&self.parent_session_path),
        }
    }
}

/// Options for creating a session.
#[derive(Debug)]
pub struct CreateSessionOptions {
    pub name: Option<String>,
    pub initial_model: Option<String>,
    pub initial_thinking_level: Option<ThinkingLevel>,
    pub initial_tools: Vec<String>,
}

impl Default for CreateSessionOptions {
    /// No name, model or thinking level, and no tools.
    fn default() -> (res: CreateSessionOptions)
        ensures
            res.name is None,
            res.initial_model is None,
            res.initial_thinking_level is None,
            res.initial_tools@.len() == 0,
    {
        CreateSessionOptions {
            name: None,
            initial_model: None,
            initial_thinking_level: None,
            initial_tools: Vec::new(),
        }
    }
}

/// Sort order of session listings.
#[derive(Clone, Copy, PartialEq, Eq, Structural, Debug)]
pub enum ListOrder {
    UpdatedDesc,
    UpdatedAsc,
    CreatedDesc,
    CreatedAsc,
}

impl Default for ListOrder {
    /// Most recently updated first.
    fn default() -> (res: ListOrder)
        ensures
            res == ListOrder::UpdatedDesc,
    {
        ListOrder::UpdatedDesc
    }
}

/// Options for listing sessions.
#[derive(Debug)]
pub struct ListSessionOptions {
    pub limit: Option<usize>,
    pub offset: Option<usize>,
    pub order: ListOrder,
    pub name_contains: Option<String>,
}

impl Default for ListSessionOptions {
    /// Every session, most recently updated first.
    fn default() -> (res: ListSessionOptions)
        ensures
            res.limit is None,
            res.offset is None,
            res.order == ListOrder::UpdatedDesc,
            res.name_contains is None,
    {
        ListSessionOptions { limit: None, offset: None, order: ListOrder::UpdatedDesc, name_contains: None }
    }
}

/// Options for a cross-session fork.
#[derive(Debug)]
pub struct ForkOptions {
    pub name: Option<String>,
    pub copy_entries: bool,
}

impl Default for ForkOptions {
    /// Default fork options: no name, entries copied.
    fn default() -> (res: ForkOptions)
        ensures
            res.name is None,
            res.copy_entries,
    {
        ForkOptions { name: None, copy_entries: true }
    }
}

/// Summary of one branch (a leaf and its path to the root).
#[derive(Debug)]
pub struct BranchInfo {
    pub leaf_id: EntryId,
    pub label: Option<String>,
    pub message_count: usize,
    pub last_activity: i64,
    pub summary: Option<String>,
}

/// The effective context built from a path of entries.
#[derive(Debug)]
pub struct BuiltContext {
    pub messages: Vec<AgentMessage>,
    pub last_model: Option<String>,
    pub last_thinking_level: Option<ThinkingLevel>,
    pub last_active_tools: Option<Vec<String>>,
}

/// Model of a [`BuiltContext`].
pub struct BuiltContextView {
    pub messages: Seq<MessageView>,
    pub last_model: Option<String>,
    pub last_thinking_level: Option<ThinkingLevel>,
    pub last_active_tools: Option<Seq<String>>,
}

impl View for BuiltContext {
    type V = BuiltContextView;

    open spec fn view(&self) -> BuiltContextView {
        BuiltContextView {
            messages: self.messages@.map_values(|m: AgentMessage| m@),
            last_model: self.last_model,
            last_thinking_level: self.last_thinking_level,
            last_active_tools: match self.last_active_tools {
                Some(v) => Some(v@),
                None => None,
            },
        }
    }
}

// ── Specification of context building ─────────────────────────────────────

/// The last compaction entry of a path.
pub open spec fn last_compaction(es: Seq<EntryView>) -> Option<CompactionEntryView>
    decreases es.len(),
{
    if es.len() == 0 {
        None
    } else {
        match es.last().payload {
            PayloadView::Compaction(c) => Some(c),
            _ => last_compaction(es.drop_last()),
        }
    }
}

/// Position of the first entry with the given id, or -1.
pub open spec fn find_first(es: Seq<EntryView>, id: EntryId) -> int
    decreases es.len(),
{
    if es.len() == 0 {
        -1
    } else {
        let r = find_first(es.drop_last(), id);
        if r >= 0 {
            r
        } else if es.last().id == id {
            es.len() - 1
        } else {
            -1
        }
    }
}

/// Where context building starts: the first kept entry of the last compaction
/// when it lies on the path, else the start of the path.
pub open spec fn context_start(es: Seq<EntryView>) -> int {
    match last_compaction(es) {
        Some(c) => {
            let i = find_first(es, c.first_kept_entry);
            if i >= 0 {
                i
            } else {
                0
            }
        },
        None => 0,
    }
}

/// The messages held by a run of entries, in order.
pub open spec fn collect_messages(es: Seq<EntryView>) -> Seq<MessageView>
    decreases es.len(),
{
    if es.len() == 0 {
        seq![]
    } else {
        let rest = collect_messages(es.drop_last());
        match es.last().payload {
            PayloadView::Message(m) => rest.push(m),
            _ => rest,
        }
    }
}

/// The target of the last model change in a run of entries.
pub open spec fn last_model_in(es: Seq<EntryView>) -> Option<String>
    decreases es.len(),
{
    if es.len() == 0 {
        None
    } else {
        match es.last().payload {
            PayloadView::ModelChange { to, .. } => Some(to),
            _ => last_model_in(es.drop_last()),
        }
    }
}

/// The target of the last thinking-level change in a run of entries.
pub open spec fn last_thinking_in(es: Seq<EntryView>) -> Option<ThinkingLevel>
    decreases es.len(),
{
    if es.len() == 0 {
        None
    } else {
        match es.last().payload {
            PayloadView::ThinkingLevelChange { to } => Some(to),
            _ => last_thinking_in(es.drop_last()),
        }
    }
}

/// The tool list of the last active-tools change in a run of entries.
pub open spec fn last_tools_in(es: Seq<EntryView>) -> Option<Seq<String>>
    decreases es.len(),
{
    if es.len() == 0 {
        None
    } else {
        match es.last().payload {
            PayloadView::ActiveToolsChange { active } => Some(active),
            _ => last_tools_in(es.drop_last()),
        }
    }
}

/// The effective context of a root-first path: the last compaction summary
/// (if any) followed by the messages from its first kept entry on, and the
/// last model, thinking level and tool list set in that range.
pub open spec fn build_context_spec(es: Seq<EntryView>) -> BuiltContextView {
    let tail = es.subrange(context_start(es), es.len() as int);
    BuiltContextView {
        messages: match last_compaction(es) {
            Some(c) => seq![c.summary_message],
            None => seq![],
        } + collect_messages(tail),
        last_model: last_model_in(tail),
        last_thinking_level: last_thinking_in(tail),
        last_active_tools: last_tools_in(tail),
    }
}

proof fn lemma_find_first_bounds(es: Seq<EntryView>, id: EntryId)
    ensures
        -1 <= find_first(es, id) < es.len(),
        find_first(es, id) >= 0 ==> es[find_first(es, id)].id == id,
    decreases es.len(),
{
    if es.len() > 0 {
        lemma_find_first_bounds(es.drop_last(), id);
    }
}

/// Builds the effective context from a root-first list of entries.
pub fn build_context_from_entries(entries: &[SessionEntry]) -> (res: BuiltContext)
    ensures
        res@ == build_context_spec(entry_views(entries@)),
{
    let ghost es = entry_views(entries@);
    let n = entries.len();
    // Locate the last compaction entry.
    let mut last_comp: Option<usize> = None;
    let mut i: usize = 0;
    while i < n
        invariant
            n == entries@.len(),
            es == entry_views(entries@),
            i <= n,
            match last_comp {
                Some(k) => k < i && es[k as int].payload is Compaction && last_compaction(
                    es.subrange(0, i as int),
                ) == Some(es[k as int].payload->Compaction_0),
                None => last_compaction(es.subrange(0, i as int)) is None,
            },
        decreases n - i,
    {
        proof {
            assert(es.subrange(0, i + 1).drop_last() =~= es.subrange(0, i as int));
        }
        if let SessionEntryPayload::Compaction(_) = &entries[i].payload {
            last_comp = Some(i);
        }
        i = i + 1;
    }
    proof {
        assert(es.subrange(0, n as int) =~= es);
    }
    // Find where the kept region starts.
    let mut start: usize = 0;
    if let Some(k) = last_comp {
        if let SessionEntryPayload::Compaction(c) = &entries[k].payload {
            let fk = c.first_kept_entry;
            let mut j: usize = 0;
            let mut found: Option<usize> = None;
            while j < n
                invariant
                    n == entries@.len(),
                    es == entry_views(entries@),
                    j <= n,
                    match found {
                        Some(p) => p < j && find_first(es.subrange(0, j as int), fk) == p,
                        None => find_first(es.subrange(0, j as int), fk) == -1,
                    },
                decreases n - j,
            {
                proof {
                    assert(es.subrange(0, j + 1).drop_last() =~= es.subrange(0, j as int));
                }
                if found.is_none() && entries[j].id == fk {
                    found = Some(j);
                }
                j = j + 1;
            }
            if let Some(p) = found {
                start = p;
            }
        }
    }
    proof {
        lemma_find_first_bounds(es, match last_compaction(es) {
            Some(c) => c.first_kept_entry,
            None => EntryId(0),
        });
    }
    assert(start == context_start(es));
    let mut messages: Vec<AgentMessage> = Vec::new();
    if let Some(k) = last_comp {
        if let SessionEntryPayload::Compaction(c) = &entries[k].payload {
            messages.push(c.summary_message.clone());
        }
    }
    let ghost head = messages@.map_values(|m: AgentMessage| m@);
    let mut last_model: Option<String> = None;
    let mut last_thinking_level: Option<ThinkingLevel> = None;
    let mut last_active_tools: Option<Vec<String>> = None;
    let mut i: usize = start;
    while i < n
        invariant
            n == entries@.len(),
            es == entry_views(entries@),
            start <= i <= n,
            messages@.map_values(|m: AgentMessage| m@) == head + collect_messages(
                es.subrange(start as int, i as int),
            ),
            last_model == last_model_in(es.subrange(start as int, i as int)),
            last_thinking_level == last_thinking_in(es.subrange(start as int, i as int)),
            match last_active_tools {
                Some(v) => last_tools_in(es.subrange(start as int, i as int)) == Some(v@),
                None => last_tools_in(es.subrange(start as int, i as int)) is None,
            },
        decreases n - i,
    {
        proof {
            assert(es.subrange(start as int, i + 1).drop_last() =~= es.subrange(
                start as int,
                i as int,
            ));
            assert(es.subrange(start as int, i + 1).last() == es[i as int]);
        }
        match &entries[i].payload {
            SessionEntryPayload::Message(m) => {
                let ghost before = messages@;
                messages.push(m.clone());
                proof {
                    assert(messages@.map_values(|m: AgentMessage| m@) =~= before.map_values(
                        |m: AgentMessage| m@,
                    ).push(m@));
                }
            },
            SessionEntryPayload::ModelChange { to, .. } => {
                last_model = Some(to.clone());
            },
            SessionEntryPayload::ThinkingLevelChange { to } => {
                last_thinking_level = Some(*to);
            },
            SessionEntryPayload::ActiveToolsChange { active } => {
                last_active_tools = Some(clone_strings(active));
            },
            _ => {},
        }
        i = i + 1;
    }
    let res = BuiltContext { messages, last_model, last_thinking_level, last_active_tools };
    proof {
        assert(res@.messages =~= build_context_spec(es).messages);
    }
    res
}

} // verus!

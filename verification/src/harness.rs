//! The harness around the run loop: session persistence with buffered
//! writes during a run, configuration changes recorded in the session,
//! queued next-turn messages, skills and templates, and the decisions of a
//! compaction. The caller drives the loop, the hooks and the provider; each
//! step here says how the harness state and its session move.
use vstd::prelude::*;
use crate::agent::{set_insert, set_remove, text_set, DEFAULT_MAX_TOKENS, DEFAULT_QUEUE_CAPACITY};
use crate::agent_loop::tool_result_message;
use crate::compaction::{
    compact_start, compaction_plan, entries_tokens, prepare_compaction, CompactionPreparation,
    CompactionResult, CompactionSettings,
};
use crate::errors::{CompactionError, HarnessError, SessionError};
use crate::events::AgentEvent;
use crate::repo::InMemorySessionRepo;
use crate::session::{
    entry_views, BranchInfo, CompactionEntry, CreateSessionOptions, EntryView, PayloadView,
    SessionEntry, SessionEntryPayload,
};
use crate::skills::{format_skill_invocation, invoke_template, PromptTemplate, Skill};
use crate::store::StoreView;
use crate::tree::{active_path, Session};
use crate::turn::{kept_names, keep_active, name_in, name_listed, AgentContext, NextTurnDirective};
use crate::types::{
    clone_messages, clone_opt_string, clone_strings, extend_messages, message_views,
    AgentMessage, AssistantMessage, ContentBlock, EntryId, HarnessPhase, MessageView, ModelInfo,
    ThinkingLevel,
};

verus! {

/// Observable state of a harness. Tools are held by name; `active_tools`
/// (when set) restricts the tools a run uses; the ids of executing tools
/// form a set.
#[derive(Debug)]
pub struct HarnessState {
    pub phase: HarnessPhase,
    pub model: String,
    pub model_info: Option<ModelInfo>,
    pub thinking_level: ThinkingLevel,
    pub tools: Vec<String>,
    pub active_tools: Option<Vec<String>>,
    pub system_prompt: Option<String>,
    pub streaming_message: Option<AssistantMessage>,
    pub pending_tool_calls: Vec<String>,
    pub pending_session_writes: Vec<SessionEntryPayload>,
    pub queued_next_turn: Vec<AgentMessage>,
    pub error_message: Option<String>,
}

/// What a compaction achieved.
#[derive(Clone, Copy, PartialEq, Eq, Structural, Debug)]
pub struct CompactionStats {
    pub tokens_before: usize,
    pub tokens_after: usize,
    pub compressed_entries: usize,
}

/// Construction options of a harness.
#[derive(Debug)]
pub struct AgentHarnessOptions {
    pub model: String,
    pub model_info: Option<ModelInfo>,
    pub thinking_level: ThinkingLevel,
    pub tools: Vec<String>,
    pub system_prompt: Option<String>,
    pub max_tokens: u32,
    pub queue_capacity: usize,
    pub skills: Vec<Skill>,
    pub templates: Vec<PromptTemplate>,
}

impl AgentHarnessOptions {
    /// Options with the given model and every other field at its default.
    pub fn new(model: String) -> (o: AgentHarnessOptions)
        ensures
            o.model == model,
            o.model_info is None,
            o.thinking_level == ThinkingLevel::Off,
            o.tools@.len() == 0,
            o.system_prompt is None,
            o.max_tokens == DEFAULT_MAX_TOKENS,
            o.queue_capacity == DEFAULT_QUEUE_CAPACITY,
            o.skills@.len() == 0,
            o.templates@.len() == 0,
    {
        AgentHarnessOptions {
            model,
            model_info: None,
            thinking_level: ThinkingLevel::Off,
            tools: Vec::new(),
            system_prompt: None,
            max_tokens: DEFAULT_MAX_TOKENS,
            queue_capacity: DEFAULT_QUEUE_CAPACITY,
            skills: Vec::new(),
            templates: Vec::new(),
        }
    }
}

/// The text of the first text block.
pub open spec fn first_text(bs: Seq<ContentBlock>) -> Option<String>
    decreases bs.len(),
{
    if bs.len() == 0 {
        None
    } else {
        match bs[0] {
            ContentBlock::Text { text } => Some(text),
            _ => first_text(bs.drop_first()),
        }
    }
}

/// The first text of a user message, over the messages in order.
pub open spec fn first_user_text(ms: Seq<MessageView>) -> Option<String>
    decreases ms.len(),
{
    if ms.len() == 0 {
        None
    } else {
        match ms[0] {
            MessageView::User { content, .. } => match first_text(content) {
                Some(t) => Some(t),
                None => first_user_text(ms.drop_first()),
            },
            _ => first_user_text(ms.drop_first()),
        }
    }
}

/// The tools a run may use: the active subset when one is set.
pub open spec fn run_tools(s: HarnessState) -> Seq<String> {
    match s.active_tools {
        Some(a) => kept_names(s.tools@, a@),
        None => s.tools@,
    }
}

/// The payload views of a list of payloads.
pub open spec fn payload_views(ps: Seq<SessionEntryPayload>) -> Seq<PayloadView> {
    ps.map_values(|p: SessionEntryPayload| p@)
}

/// The first skill with the given name.
pub open spec fn find_skill(sk: Seq<Skill>, name: Seq<char>) -> Option<Skill>
    decreases sk.len(),
{
    if sk.len() == 0 {
        None
    } else if sk[0].name@ == name {
        Some(sk[0])
    } else {
        find_skill(sk.drop_first(), name)
    }
}

/// The first template with the given name.
pub open spec fn find_template(ts: Seq<PromptTemplate>, name: Seq<char>) -> Option<PromptTemplate>
    decreases ts.len(),
{
    if ts.len() == 0 {
        None
    } else if ts[0].name@ == name {
        Some(ts[0])
    } else {
        find_template(ts.drop_first(), name)
    }
}

/// The last compaction record on a path.
pub open spec fn last_compaction(p: Seq<EntryView>) -> Option<crate::session::CompactionEntryView>
    decreases p.len(),
{
    if p.len() == 0 {
        None
    } else {
        match p.last().payload {
            PayloadView::Compaction(c) => Some(c),
            _ => last_compaction(p.drop_last()),
        }
    }
}

/// The compaction settings a harness uses: reserve 16384 and keep 20000
/// tokens, summarised by the current model, whose window defaults to 200000
/// tokens.
pub open spec fn harness_compaction_settings(s: HarnessState, max_tokens: u32) -> CompactionSettings {
    CompactionSettings {
        enabled: true,
        reserve_tokens: 16_384,
        keep_recent_tokens: 20_000,
        summary_model: s.model,
        summary_model_info: match s.model_info {
            Some(i) => i,
            None => ModelInfo { context_window: 200_000, max_tokens: max_tokens },
        },
    }
}

/// Harness core: state, session, skills and templates.
#[derive(Debug)]
pub struct AgentHarness {
    state: HarnessState,
    session: Session,
    skills: Vec<Skill>,
    templates: Vec<PromptTemplate>,
    max_tokens: u32,
}

impl AgentHarness {
    /// The current state.
    pub closed spec fn st(&self) -> HarnessState {
        self.state
    }

    /// The session's contents.
    pub closed spec fn sess(&self) -> StoreView {
        self.session@
    }

    /// The loaded skills.
    pub closed spec fn skill_list(&self) -> Seq<Skill> {
        self.skills@
    }

    /// The loaded templates.
    pub closed spec fn template_list(&self) -> Seq<PromptTemplate> {
        self.templates@
    }

    /// Output-token limit per call.
    pub closed spec fn spec_max_tokens(&self) -> u32 {
        self.max_tokens
    }

    /// Output-token limit per call, as configured.
    pub fn max_tokens(&self) -> (n: u32)
        ensures
            n == self.spec_max_tokens(),
    {
        self.max_tokens
    }

    /// The session is a well-formed tree.
    pub closed spec fn wf(&self) -> bool {
        self.session.wf()
    }

    /// A harness over an existing session: idle, with the options'
    /// configuration and no active subset, queue or buffered write.
    pub fn with_session(session: Session, opts: AgentHarnessOptions) -> (h: AgentHarness)
        requires
            session.wf(),
        ensures
            h.wf(),
            h.sess() == session@,
            h.st().phase == HarnessPhase::Idle,
            h.st().model == opts.model,
            h.st().model_info == opts.model_info,
            h.st().thinking_level == opts.thinking_level,
            h.st().tools == opts.tools,
            h.st().active_tools is None,
            h.st().system_prompt == opts.system_prompt,
            h.st().streaming_message is None,
            h.st().pending_tool_calls@.len() == 0,
            h.st().pending_session_writes@.len() == 0,
            h.st().queued_next_turn@.len() == 0,
            h.st().error_message is None,
            h.skill_list() == opts.skills@,
            h.template_list() == opts.templates@,
            h.spec_max_tokens() == opts.max_tokens,
    {
        AgentHarness {
            state: HarnessState {
                phase: HarnessPhase::Idle,
                model: opts.model,
                model_info: opts.model_info,
                thinking_level: opts.thinking_level,
                tools: opts.tools,
                active_tools: None,
                system_prompt: opts.system_prompt,
                streaming_message: None,
                pending_tool_calls: Vec::new(),
                pending_session_writes: Vec::new(),
                queued_next_turn: Vec::new(),
                error_message: None,
            },
            session,
            skills: opts.skills,
            templates: opts.templates,
            max_tokens: opts.max_tokens,
        }
    }

    /// A harness over a new, empty session held in memory.
    pub fn new_in_memory(opts: AgentHarnessOptions) -> (h: AgentHarness)
        ensures
            h.wf(),
            h.sess().entries.len() == 0,
            h.sess().metadata.active_cursor is None,
            h.st().phase == HarnessPhase::Idle,
            h.st().model == opts.model,
            h.st().tools == opts.tools,
            h.st().system_prompt == opts.system_prompt,
    {
        let mut repo = InMemorySessionRepo::new();
        let store = repo.create(
            CreateSessionOptions {
                name: None,
                initial_model: None,
                initial_thinking_level: None,
                initial_tools: Vec::new(),
            },
        );
        AgentHarness::with_session(Session::new(store), opts)
    }

    /// The current state.
    pub fn state(&self) -> (s: &HarnessState)
        ensures
            *s == self.st(),
    {
        &self.state
    }

    /// The session.
    pub fn session(&self) -> (s: &Session)
        ensures
            s@ == self.sess(),
            self.wf() ==> s.wf(),
    {
        &self.session
    }

    /// The loaded skills.
    pub fn skills(&self) -> (s: &Vec<Skill>)
        ensures
            s@ == self.skill_list(),
    {
        &self.skills
    }

    /// The loaded templates.
    pub fn templates(&self) -> (t: &Vec<PromptTemplate>)
        ensures
            t@ == self.template_list(),
    {
        &self.templates
    }

    /// Replaces the loaded skills and templates.
    pub fn set_resources(&mut self, skills: Vec<Skill>, templates: Vec<PromptTemplate>)
        ensures
            final(self).skill_list() == skills@,
            final(self).template_list() == templates@,
            final(self).st() == old(self).st(),
            final(self).sess() == old(self).sess(),
            final(self).wf() == old(self).wf(),
            final(self).spec_max_tokens() == old(self).spec_max_tokens(),
    {
        self.skills = skills;
        self.templates = templates;
    }

    // ── Starting a run ───────────────────────────────────────────────────

    /// Starts a prompt: refused with `NotIdle` outside the idle phase
    /// (nothing changes). Otherwise the last error is cleared and the queued
    /// next-turn messages are taken and put before the given ones.
    pub fn begin_prompt(&mut self, messages: Vec<AgentMessage>) -> (r: Result<
        Vec<AgentMessage>,
        HarnessError,
    >)
        ensures
            old(self).st().phase != HarnessPhase::Idle ==> r == Err::<
                Vec<AgentMessage>,
                HarnessError,
            >(HarnessError::NotIdle(old(self).st().phase)) && *final(self) == *old(self),
            old(self).st().phase == HarnessPhase::Idle ==> (r matches Ok(v) && message_views(v@)
                == message_views(old(self).st().queued_next_turn@) + message_views(messages@))
                && final(self).st() == (HarnessState {
                error_message: None,
                queued_next_turn: final(self).st().queued_next_turn,
                ..old(self).st()
            }) && final(self).st().queued_next_turn@.len() == 0 && final(self).sess() == old(self).sess() && final(self).wf() == old(self).wf() && final(self).skill_list() == old(self).skill_list() && final(self).template_list() == old(self).template_list()
                && final(self).spec_max_tokens() == old(self).spec_max_tokens(),
    {
        if self.state.phase != HarnessPhase::Idle {
            return Err(HarnessError::NotIdle(self.state.phase));
        }
        self.state.error_message = None;
        let mut initial = Vec::new();
        std::mem::swap(&mut initial, &mut self.state.queued_next_turn);
        extend_messages(&mut initial, &messages);
        Ok(initial)
    }

    /// Applies what a before-run hook returned: its extra messages follow
    /// the starting ones, and its system prompt (else the prompt as the hook
    /// left it, when set) becomes the harness's system prompt.
    pub fn apply_before_run(
        &mut self,
        initial: Vec<AgentMessage>,
        hook_system_prompt: Option<String>,
        additional: Vec<AgentMessage>,
        result_system_prompt: Option<String>,
    ) -> (r: Vec<AgentMessage>)
        ensures
            message_views(r@) == message_views(initial@) + message_views(additional@),
            final(self).st() == (HarnessState {
                system_prompt: match result_system_prompt {
                    Some(sp) => Some(sp),
                    None => match hook_system_prompt {
                        Some(sp) => Some(sp),
                        None => old(self).st().system_prompt,
                    },
                },
                ..old(self).st()
            }),
            final(self).sess() == old(self).sess(),
            final(self).wf() == old(self).wf(),
            final(self).skill_list() == old(self).skill_list(),
            final(self).template_list() == old(self).template_list(),
            final(self).spec_max_tokens() == old(self).spec_max_tokens(),
    {
        let mut out = initial;
        extend_messages(&mut out, &additional);
        let sp = match result_system_prompt {
            Some(s) => Some(s),
            None => hook_system_prompt,
        };
        if let Some(s) = sp {
            self.state.system_prompt = Some(s);
        }
        out
    }

    /// Starts a run: nothing streams or is pending, the phase is `Turning`,
    /// and the context is the session's context followed by the starting
    /// messages, which are also buffered for the session. When the session's
    /// context cannot be built, the run stops there with that error.
    pub fn start_run(&mut self, initial: &Vec<AgentMessage>) -> (r: Result<
        AgentContext,
        HarnessError,
    >)
        requires
            old(self).wf(),
        ensures
            final(self).wf(),
            final(self).sess() == old(self).sess(),
            final(self).st().phase == HarnessPhase::Turning,
            final(self).st().streaming_message is None,
            final(self).st().pending_tool_calls@.len() == 0,
            final(self).st().model == old(self).st().model,
            final(self).st().tools == old(self).st().tools,
            final(self).st().system_prompt == old(self).st().system_prompt,
            final(self).st().queued_next_turn == old(self).st().queued_next_turn,
            final(self).skill_list() == old(self).skill_list(),
            final(self).template_list() == old(self).template_list(),
            final(self).spec_max_tokens() == old(self).spec_max_tokens(),
            match r {
                Ok(c) => {
                    let p = active_path(old(self).sess().entries, old(self).sess().metadata.active_cursor);
                    &&& p is Ok
                    &&& message_views(c.messages@) == crate::session::build_context_spec(
                        p->Ok_0,
                    ).messages + message_views(initial@)
                    &&& c.system_prompt == old(self).st().system_prompt
                    &&& payload_views(final(self).st().pending_session_writes@) == payload_views(
                        old(self).st().pending_session_writes@,
                    ) + message_views(initial@).map_values(|m: MessageView| PayloadView::Message(m))
                },
                Err(e) => active_path(
                    old(self).sess().entries,
                    old(self).sess().metadata.active_cursor,
                ) is Err && e == HarnessError::Session(
                    SessionError::EntryNotFound(
                        active_path(
                            old(self).sess().entries,
                            old(self).sess().metadata.active_cursor,
                        )->Err_0,
                    ),
                ),
            },
    {
        self.state.streaming_message = None;
        self.state.pending_tool_calls = Vec::new();
        self.state.phase = HarnessPhase::Turning;
        let built = match self.session.build_context() {
            Ok(b) => b,
            Err(e) => {
                return Err(HarnessError::Session(e));
            },
        };
        let mut messages = built.messages;
        extend_messages(&mut messages, initial);
        let mut i: usize = 0;
        let ghost w0 = payload_views(self.state.pending_session_writes@);
        while i < initial.len()
            invariant
                i <= initial@.len(),
                self.session.wf(),
                self.session@ == old(self).session@,
                self.state.phase == HarnessPhase::Turning,
                self.state.streaming_message is None,
                self.state.pending_tool_calls@.len() == 0,
                self.state.model == old(self).state.model,
                self.state.tools == old(self).state.tools,
                self.state.system_prompt == old(self).state.system_prompt,
                self.state.queued_next_turn == old(self).state.queued_next_turn,
                self.skills == old(self).skills,
                self.templates == old(self).templates,
                self.max_tokens == old(self).max_tokens,
                payload_views(self.state.pending_session_writes@) == w0 + message_views(
                    initial@,
                ).map_values(|m: MessageView| PayloadView::Message(m)).subrange(0, i as int),
            decreases initial.len() - i,
        {
            let ghost before = payload_views(self.state.pending_session_writes@);
            let m = initial[i].clone();
            self.state.pending_session_writes.push(SessionEntryPayload::Message(m));
            proof {
                let all = message_views(initial@).map_values(|m: MessageView| PayloadView::Message(m));
                assert(payload_views(self.state.pending_session_writes@) =~= before.push(
                    PayloadView::Message(initial@[i as int]@),
                ));
                assert(all.subrange(0, i + 1) =~= all.subrange(0, i as int).push(all[i as int]));
                assert(w0 + all.subrange(0, i + 1) =~= (w0 + all.subrange(0, i as int)).push(
                    all[i as int],
                ));
            }
            i = i + 1;
        }
        proof {
            let all = message_views(initial@).map_values(|m: MessageView| PayloadView::Message(m));
            assert(all.subrange(0, i as int) =~= all);
        }
        Ok(AgentContext { system_prompt: clone_opt_string(&self.state.system_prompt), messages })
    }

    /// The tools a run uses, by name: the active subset of the registered
    /// tools when one is set.
    pub fn loop_tools(&self) -> (r: Vec<String>)
        ensures
            r@ == run_tools(self.st()),
    {
        match &self.state.active_tools {
            Some(a) => keep_active(&self.state.tools, a),
            None => clone_strings(&self.state.tools),
        }
    }

    /// The directive for the next turn: the current model, thinking level
    /// and run tools, overridden by every field the user's hook set.
    pub fn prepare_directive(&self, user: Option<NextTurnDirective>) -> (d: NextTurnDirective)
        ensures
            match user {
                None => d.context is None && d.model == Some(self.st().model)
                    && d.thinking_level == Some(self.st().thinking_level) && (d.tools matches Some(
                    t,
                ) && t@ == run_tools(self.st())) && d.active_tools is None,
                Some(u) => {
                    &&& d.context == u.context
                    &&& d.model == match u.model {
                        Some(m) => Some(m),
                        None => Some(self.st().model),
                    }
                    &&& d.thinking_level == match u.thinking_level {
                        Some(l) => Some(l),
                        None => Some(self.st().thinking_level),
                    }
                    &&& match u.tools {
                        Some(t) => d.tools == Some(t),
                        None => d.tools matches Some(t) && t@ == run_tools(self.st()),
                    }
                    &&& d.active_tools == u.active_tools
                },
            },
    {
        let mut d = NextTurnDirective {
            context: None,
            model: Some(self.state.model.clone()),
            thinking_level: Some(self.state.thinking_level),
            tools: Some(self.loop_tools()),
            active_tools: None,
        };
        if let Some(u) = user {
            if u.context.is_some() {
                d.context = u.context;
            }
            if u.model.is_some() {
                d.model = u.model;
            }
            if u.thinking_level.is_some() {
                d.thinking_level = u.thinking_level;
            }
            if u.tools.is_some() {
                d.tools = u.tools;
            }
            if u.active_tools.is_some() {
                d.active_tools = u.active_tools;
            }
        }
        d
    }

    // ── During a run ─────────────────────────────────────────────────────

    /// Writes the buffered session entries, in order; returns how many.
    fn flush_pending_writes(&mut self) -> (r: Result<usize, HarnessError>)
        requires
            old(self).wf(),
        ensures
            final(self).wf(),
            final(self).st() == (HarnessState {
                pending_session_writes: final(self).st().pending_session_writes,
                ..old(self).st()
            }),
            final(self).st().pending_session_writes@.len() == 0,
            final(self).skill_list() == old(self).skill_list(),
            final(self).template_list() == old(self).template_list(),
            final(self).spec_max_tokens() == old(self).spec_max_tokens(),
            match r {
                Ok(n) => {
                    let k0 = old(self).sess().entries.len();
                    &&& n == old(self).st().pending_session_writes@.len()
                    &&& final(self).sess().entries.len() == k0 + n
                    &&& final(self).sess().entries.subrange(0, k0 as int) == old(self).sess().entries
                    &&& forall|j: int|
                        0 <= j < n ==> (#[trigger] final(self).sess().entries[k0 + j]).payload
                            == old(self).st().pending_session_writes@[j]@
                },
                Err(e) => e == HarnessError::Session(SessionError::ConcurrentModification),
            },
    {
        let mut pending: Vec<SessionEntryPayload> = Vec::new();
        std::mem::swap(&mut pending, &mut self.state.pending_session_writes);
        let ghost pv = payload_views(pending@);
        let ghost e0 = self.session@.entries;
        let count = pending.len();
        let mut done: usize = 0;
        while done < count
            invariant
                self.session.wf(),
                done <= count,
                count == pv.len(),
                pv == payload_views(pending@),
                self.session@.entries.len() == e0.len() + done,
                self.session@.entries.subrange(0, e0.len() as int) == e0,
                forall|j: int|
                    0 <= j < done ==> (#[trigger] self.session@.entries[e0.len() + j]).payload
                        == pv[j],
                self.state == (HarnessState {
                    pending_session_writes: self.state.pending_session_writes,
                    ..old(self).state
                }),
                self.state.pending_session_writes@.len() == 0,
                self.skills == old(self).skills,
                self.templates == old(self).templates,
                self.max_tokens == old(self).max_tokens,
            decreases count - done,
        {
            let p = pending[done].clone();
            proof {
                assert(p@ == pv[done as int]);
            }
            let ghost before = self.session@.entries;
            match self.session.append(p) {
                Ok(_) => {},
                Err(e) => {
                    return Err(HarnessError::Session(e));
                },
            }
            proof {
                let after = self.session@.entries;
                assert(after.subrange(0, e0.len() as int) =~= before.subrange(0, e0.len() as int));
                assert forall|j: int| 0 <= j < done + 1 implies (#[trigger] after[e0.len()
                    + j]).payload == pv[j] by {
                    if j < done {
                        assert(after[e0.len() + j] == before[e0.len() + j]);
                    }
                }
            }
            done = done + 1;
        }
        Ok(count)
    }

    /// Updates the harness from one event of a run. A finished reply and
    /// each tool outcome (at time `now`) are buffered for the session and
    /// collected as the turn's messages; the end of a turn writes the buffer
    /// to the session and returns how many entries it wrote; an error is
    /// remembered as text.
    pub fn on_event(&mut self, ev: &AgentEvent, turn_messages: &mut Vec<AgentMessage>, now: i64) -> (r:
        Result<Option<usize>, HarnessError>)
        requires
            old(self).wf(),
        ensures
            final(self).wf(),
            final(self).st().phase == old(self).st().phase,
            final(self).st().model == old(self).st().model,
            final(self).st().tools == old(self).st().tools,
            final(self).st().system_prompt == old(self).st().system_prompt,
            final(self).st().queued_next_turn == old(self).st().queued_next_turn,
            final(self).skill_list() == old(self).skill_list(),
            final(self).template_list() == old(self).template_list(),
            final(self).spec_max_tokens() == old(self).spec_max_tokens(),
            match ev {
                AgentEvent::TurnStart { .. } => r == Ok::<Option<usize>, HarnessError>(None)
                    && final(turn_messages)@.len() == 0 && final(self).st() == old(self).st()
                    && final(self).sess() == old(self).sess(),
                AgentEvent::MessageUpdate { partial, .. } => r == Ok::<
                    Option<usize>,
                    HarnessError,
                >(None) && (final(self).st().streaming_message matches Some(p) && p@ == partial@)
                    && final(turn_messages)@ == old(turn_messages)@ && final(self).sess() == old(self).sess(),
                AgentEvent::MessageEnd { message, .. } => r == Ok::<Option<usize>, HarnessError>(
                    None,
                ) && final(self).st().streaming_message is None && message_views(
                    final(turn_messages)@,
                ) == message_views(old(turn_messages)@).push(MessageView::Assistant(message@))
                    && payload_views(final(self).st().pending_session_writes@) == payload_views(
                    old(self).st().pending_session_writes@,
                ).push(PayloadView::Message(MessageView::Assistant(message@))) && final(self).sess() == old(self).sess(),
                AgentEvent::ToolExecutionStart { tool_use_id, .. } => r == Ok::<
                    Option<usize>,
                    HarnessError,
                >(None) && text_set(final(self).st().pending_tool_calls@) == text_set(
                    old(self).st().pending_tool_calls@,
                ).insert(tool_use_id@) && final(turn_messages)@ == old(turn_messages)@ && final(self).sess() == old(self).sess(),
                AgentEvent::ToolExecutionEnd { tool_use_id, result } => r == Ok::<
                    Option<usize>,
                    HarnessError,
                >(None) && text_set(final(self).st().pending_tool_calls@) == text_set(
                    old(self).st().pending_tool_calls@,
                ).remove(tool_use_id@) && message_views(final(turn_messages)@).len() == old(turn_messages)@.len() + 1 && crate::turn::is_result_message(
                    message_views(final(turn_messages)@).last(),
                    *tool_use_id,
                    crate::agent_loop::outcome_view(*result),
                    now,
                ) && payload_views(final(self).st().pending_session_writes@) == payload_views(
                    old(self).st().pending_session_writes@,
                ).push(PayloadView::Message(message_views(final(turn_messages)@).last()))
                    && final(self).sess() == old(self).sess(),
                AgentEvent::TurnEnd { .. } => match r {
                    Ok(Some(n)) => {
                        let k0 = old(self).sess().entries.len();
                        &&& n == old(self).st().pending_session_writes@.len()
                        &&& final(self).sess().entries.len() == k0 + n
                        &&& final(self).sess().entries.subrange(0, k0 as int) == old(self).sess().entries
                        &&& forall|j: int|
                            0 <= j < n ==> (#[trigger] final(self).sess().entries[k0 + j]).payload
                                == old(self).st().pending_session_writes@[j]@
                        &&& final(self).st().pending_session_writes@.len() == 0
                    },
                    Ok(None) => false,
                    Err(e) => e == HarnessError::Session(SessionError::ConcurrentModification),
                },
                AgentEvent::Error(e) => r == Ok::<Option<usize>, HarnessError>(None) && (final(self).st().error_message matches Some(t) && t@ == e.text()) && final(self).sess()
                    == old(self).sess(),
                _ => r == Ok::<Option<usize>, HarnessError>(None) && final(self).st() == old(self).st() && final(self).sess() == old(self).sess() && final(turn_messages)@ == old(turn_messages)@,
            },
    {
        match ev {
            AgentEvent::TurnStart { .. } => {
                *turn_messages = Vec::new();
                Ok(None)
            },
            AgentEvent::MessageUpdate { partial, .. } => {
                self.state.streaming_message = Some(partial.clone());
                Ok(None)
            },
            AgentEvent::MessageEnd { message, .. } => {
                self.state.streaming_message = None;
                let msg = AgentMessage::Assistant(message.clone());
                let msg2 = AgentMessage::Assistant(message.clone());
                let ghost w0 = payload_views(self.state.pending_session_writes@);
                let ghost t0 = message_views(turn_messages@);
                self.state.pending_session_writes.push(SessionEntryPayload::Message(msg));
                turn_messages.push(msg2);
                proof {
                    assert(payload_views(self.state.pending_session_writes@) =~= w0.push(
                        PayloadView::Message(MessageView::Assistant(message@)),
                    ));
                    assert(message_views(turn_messages@) =~= t0.push(
                        MessageView::Assistant(message@),
                    ));
                }
                Ok(None)
            },
            AgentEvent::ToolExecutionStart { tool_use_id, .. } => {
                set_insert(&mut self.state.pending_tool_calls, tool_use_id);
                Ok(None)
            },
            AgentEvent::ToolExecutionEnd { tool_use_id, result } => {
                set_remove(&mut self.state.pending_tool_calls, tool_use_id);
                let msg = tool_result_message(tool_use_id, result, now);
                let msg2 = msg.clone();
                let ghost mv = msg@;
                let ghost w0 = payload_views(self.state.pending_session_writes@);
                let ghost t0 = message_views(turn_messages@);
                self.state.pending_session_writes.push(SessionEntryPayload::Message(msg));
                turn_messages.push(msg2);
                proof {
                    assert(payload_views(self.state.pending_session_writes@) =~= w0.push(
                        PayloadView::Message(mv),
                    ));
                    assert(message_views(turn_messages@) =~= t0.push(mv));
                }
                Ok(None)
            },
            AgentEvent::TurnEnd { .. } => {
                let n = self.flush_pending_writes()?;
                Ok(Some(n))
            },
            AgentEvent::Error(e) => {
                self.state.error_message = Some(e.message());
                Ok(None)
            },
            _ => Ok(None),
        }
    }

    // ── Configuration ────────────────────────────────────────────────────

    /// Changes the model. The same model changes nothing and returns none.
    /// Otherwise the model and its metadata change, the change is recorded in
    /// the session when idle (else buffered for the end of the turn), and the
    /// previous model is returned.
    pub fn set_model(&mut self, model: String, info: Option<ModelInfo>) -> (r: Result<
        Option<String>,
        HarnessError,
    >)
        requires
            old(self).wf(),
        ensures
            final(self).wf(),
            final(self).skill_list() == old(self).skill_list(),
            final(self).template_list() == old(self).template_list(),
            final(self).spec_max_tokens() == old(self).spec_max_tokens(),
            old(self).st().model@ == model@ ==> r == Ok::<Option<String>, HarnessError>(None)
                && *final(self) == *old(self),
            old(self).st().model@ != model@ ==> {
                let payload = PayloadView::ModelChange { to: model, provider: None, model_id: None };
                &&& final(self).st() == (HarnessState {
                    model: model,
                    model_info: info,
                    pending_session_writes: final(self).st().pending_session_writes,
                    ..old(self).st()
                })
                &&& old(self).st().phase == HarnessPhase::Idle ==> {
                    &&& final(self).st().pending_session_writes == old(
                        self,
                    ).st().pending_session_writes
                    &&& match r {
                        Ok(prev) => prev == Some(old(self).st().model)
                            && final(self).sess().entries.len() == old(self).sess().entries.len()
                            + 1 && final(self).sess().entries.last().payload == payload,
                        Err(e) => e == HarnessError::Session(SessionError::ConcurrentModification),
                    }
                }
                &&& old(self).st().phase != HarnessPhase::Idle ==> r == Ok::<
                    Option<String>,
                    HarnessError,
                >(Some(old(self).st().model)) && final(self).sess() == old(self).sess()
                    && payload_views(final(self).st().pending_session_writes@) == payload_views(
                    old(self).st().pending_session_writes@,
                ).push(payload)
            },
    {
        if self.state.model == model {
            return Ok(None);
        }
        let payload = SessionEntryPayload::ModelChange {
            to: model.clone(),
            provider: None,
            model_id: None,
        };
        let mut prev = model;
        std::mem::swap(&mut prev, &mut self.state.model);
        self.state.model_info = info;
        if self.state.phase == HarnessPhase::Idle {
            match self.session.append(payload) {
                Ok(_) => {},
                Err(e) => {
                    return Err(HarnessError::Session(e));
                },
            }
        } else {
            let ghost w0 = payload_views(self.state.pending_session_writes@);
            let ghost pv = payload@;
            self.state.pending_session_writes.push(payload);
            proof {
                assert(payload_views(self.state.pending_session_writes@) =~= w0.push(pv));
            }
        }
        Ok(Some(prev))
    }

    /// Changes the thinking level, recorded in the session when idle (else
    /// buffered); returns the previous level.
    pub fn set_thinking_level(&mut self, level: ThinkingLevel) -> (r: Result<
        ThinkingLevel,
        HarnessError,
    >)
        requires
            old(self).wf(),
        ensures
            final(self).wf(),
            final(self).skill_list() == old(self).skill_list(),
            final(self).template_list() == old(self).template_list(),
            final(self).spec_max_tokens() == old(self).spec_max_tokens(),
            final(self).st() == (HarnessState {
                thinking_level: level,
                pending_session_writes: final(self).st().pending_session_writes,
                ..old(self).st()
            }),
            old(self).st().phase == HarnessPhase::Idle ==> final(self).st().pending_session_writes
                == old(self).st().pending_session_writes && match r {
                Ok(prev) => prev == old(self).st().thinking_level && final(self).sess().entries.len()
                    == old(self).sess().entries.len() + 1 && final(self).sess().entries.last().payload
                    == (PayloadView::ThinkingLevelChange { to: level }),
                Err(e) => e == HarnessError::Session(SessionError::ConcurrentModification),
            },
            old(self).st().phase != HarnessPhase::Idle ==> r == Ok::<ThinkingLevel, HarnessError>(
                old(self).st().thinking_level,
            ) && final(self).sess() == old(self).sess() && payload_views(
                final(self).st().pending_session_writes@,
            ) == payload_views(old(self).st().pending_session_writes@).push(
                PayloadView::ThinkingLevelChange { to: level },
            ),
    {
        let prev = self.state.thinking_level;
        self.state.thinking_level = level;
        let payload = SessionEntryPayload::ThinkingLevelChange { to: level };
        if self.state.phase == HarnessPhase::Idle {
            match self.session.append(payload) {
                Ok(_) => {},
                Err(e) => {
                    return Err(HarnessError::Session(e));
                },
            }
        } else {
            let ghost w0 = payload_views(self.state.pending_session_writes@);
            self.state.pending_session_writes.push(payload);
            proof {
                assert(payload_views(self.state.pending_session_writes@) =~= w0.push(
                    PayloadView::ThinkingLevelChange { to: level },
                ));
            }
        }
        Ok(prev)
    }

    /// Replaces the registered tools (by name); the new list is recorded in
    /// the session when idle (else buffered). Returns the names added and
    /// the names removed.
    pub fn set_tools(&mut self, tools: Vec<String>) -> (r: Result<
        (Vec<String>, Vec<String>),
        HarnessError,
    >)
        requires
            old(self).wf(),
        ensures
            final(self).wf(),
            final(self).skill_list() == old(self).skill_list(),
            final(self).template_list() == old(self).template_list(),
            final(self).spec_max_tokens() == old(self).spec_max_tokens(),
            final(self).st() == (HarnessState {
                tools: tools,
                pending_session_writes: final(self).st().pending_session_writes,
                ..old(self).st()
            }),
            old(self).st().phase == HarnessPhase::Idle ==> final(self).st().pending_session_writes
                == old(self).st().pending_session_writes && match r {
                Ok(_) => final(self).sess().entries.len() == old(self).sess().entries.len() + 1
                    && final(self).sess().entries.last().payload == (PayloadView::ActiveToolsChange {
                    active: tools@,
                }),
                Err(e) => e == HarnessError::Session(SessionError::ConcurrentModification),
            },
            old(self).st().phase != HarnessPhase::Idle ==> r is Ok && final(self).sess() == old(
                self,
            ).sess() && payload_views(final(self).st().pending_session_writes@) == payload_views(
                old(self).st().pending_session_writes@,
            ).push(PayloadView::ActiveToolsChange { active: tools@ }),
            r matches Ok((added, removed)) ==> text_set(added@) == text_set(tools@).difference(
                text_set(old(self).st().tools@),
            ) && text_set(removed@) == text_set(old(self).st().tools@).difference(
                text_set(tools@),
            ),
    {
        let added = set_difference(&tools, &self.state.tools);
        let removed = set_difference(&self.state.tools, &tools);
        let names = clone_strings(&tools);
        let payload = SessionEntryPayload::ActiveToolsChange { active: names };
        self.state.tools = tools;
        if self.state.phase == HarnessPhase::Idle {
            match self.session.append(payload) {
                Ok(_) => {},
                Err(e) => {
                    return Err(HarnessError::Session(e));
                },
            }
        } else {
            let ghost w0 = payload_views(self.state.pending_session_writes@);
            let ghost pv = payload@;
            self.state.pending_session_writes.push(payload);
            proof {
                assert(payload_views(self.state.pending_session_writes@) =~= w0.push(pv));
            }
        }
        Ok((added, removed))
    }

    /// Sets the active tool subset (none: every registered tool).
    pub fn set_active_tools(&mut self, active: Option<Vec<String>>)
        ensures
            final(self).st() == (HarnessState { active_tools: active, ..old(self).st() }),
            final(self).sess() == old(self).sess(),
            final(self).wf() == old(self).wf(),
            final(self).skill_list() == old(self).skill_list(),
            final(self).template_list() == old(self).template_list(),
            final(self).spec_max_tokens() == old(self).spec_max_tokens(),
    {
        self.state.active_tools = active;
    }

    /// Names the session: refused with `NotIdle` outside the idle phase;
    /// otherwise a session-info record is appended.
    pub fn set_session_name(&mut self, name: String) -> (r: Result<(), HarnessError>)
        requires
            old(self).wf(),
        ensures
            final(self).wf(),
            final(self).st() == old(self).st(),
            final(self).skill_list() == old(self).skill_list(),
            final(self).template_list() == old(self).template_list(),
            final(self).spec_max_tokens() == old(self).spec_max_tokens(),
            old(self).st().phase != HarnessPhase::Idle ==> r == Err::<(), HarnessError>(
                HarnessError::NotIdle(old(self).st().phase),
            ) && final(self).sess() == old(self).sess(),
            old(self).st().phase == HarnessPhase::Idle ==> match r {
                Ok(_) => final(self).sess().entries.len() == old(self).sess().entries.len() + 1
                    && final(self).sess().entries.last().payload == (PayloadView::SessionInfo {
                    name: name,
                }),
                Err(e) => e == HarnessError::Session(SessionError::ConcurrentModification),
            },
    {
        if self.state.phase != HarnessPhase::Idle {
            return Err(HarnessError::NotIdle(self.state.phase));
        }
        match self.session.append(SessionEntryPayload::SessionInfo { name }) {
            Ok(_) => Ok(()),
            Err(e) => Err(HarnessError::Session(e)),
        }
    }

    /// Appends a message to the session.
    pub fn append_message(&mut self, msg: AgentMessage) -> (r: Result<EntryId, HarnessError>)
        requires
            old(self).wf(),
        ensures
            final(self).wf(),
            final(self).st() == old(self).st(),
            final(self).skill_list() == old(self).skill_list(),
            final(self).template_list() == old(self).template_list(),
            final(self).spec_max_tokens() == old(self).spec_max_tokens(),
            match r {
                Ok(id) => final(self).sess().entries.len() == old(self).sess().entries.len() + 1
                    && final(self).sess().entries.last().payload == PayloadView::Message(msg@)
                    && final(self).sess().entries.last().id == id,
                Err(e) => e == HarnessError::Session(SessionError::ConcurrentModification)
                    && final(self).sess() == old(self).sess(),
            },
    {
        match self.session.append_message(msg) {
            Ok(id) => Ok(id),
            Err(e) => Err(HarnessError::Session(e)),
        }
    }

    /// Appends an application-defined entry (JSON text) to the session.
    pub fn append_custom_entry(&mut self, custom_type: String, data: String) -> (r: Result<
        EntryId,
        HarnessError,
    >)
        requires
            old(self).wf(),
        ensures
            final(self).wf(),
            final(self).st() == old(self).st(),
            final(self).skill_list() == old(self).skill_list(),
            final(self).template_list() == old(self).template_list(),
            final(self).spec_max_tokens() == old(self).spec_max_tokens(),
            match r {
                Ok(id) => final(self).sess().entries.len() == old(self).sess().entries.len() + 1
                    && final(self).sess().entries.last().payload == (PayloadView::Custom {
                    custom_type: custom_type,
                    data: data,
                }) && final(self).sess().entries.last().id == id,
                Err(e) => e == HarnessError::Session(SessionError::ConcurrentModification),
            },
    {
        match self.session.append(SessionEntryPayload::Custom { custom_type, data }) {
            Ok(id) => Ok(id),
            Err(e) => Err(HarnessError::Session(e)),
        }
    }

    /// Forks the session at `from_entry`: refused with `NotIdle` outside the
    /// idle phase; otherwise the session's fork.
    pub fn fork_branch(&mut self, from_entry: EntryId, label: Option<String>) -> (r: Result<
        EntryId,
        HarnessError,
    >)
        requires
            old(self).wf(),
        ensures
            final(self).wf(),
            final(self).st() == old(self).st(),
            final(self).skill_list() == old(self).skill_list(),
            final(self).template_list() == old(self).template_list(),
            final(self).spec_max_tokens() == old(self).spec_max_tokens(),
            old(self).st().phase != HarnessPhase::Idle ==> r == Err::<EntryId, HarnessError>(
                HarnessError::NotIdle(old(self).st().phase),
            ) && final(self).sess() == old(self).sess(),
            old(self).st().phase == HarnessPhase::Idle ==> match r {
                Ok(bp) => final(self).sess().entries == old(self).sess().entries.push(
                    EntryView {
                        id: bp,
                        parent_id: Some(from_entry),
                        timestamp: final(self).sess().entries.last().timestamp,
                        payload: PayloadView::BranchPoint { from: from_entry, label: label },
                    },
                ) && final(self).sess().metadata.active_cursor == Some(bp),
                Err(e) => e == HarnessError::Session(SessionError::ConcurrentModification),
            },
    {
        if self.state.phase != HarnessPhase::Idle {
            return Err(HarnessError::NotIdle(self.state.phase));
        }
        match self.session.fork_branch(from_entry, label) {
            Ok(id) => Ok(id),
            Err(e) => Err(HarnessError::Session(e)),
        }
    }

    /// Moves the session's cursor to `target`: refused with `NotIdle` outside
    /// the idle phase. Returns where the cursor was (`target` when unset).
    pub fn navigate_tree(&mut self, target: EntryId) -> (r: Result<EntryId, HarnessError>)
        requires
            old(self).wf(),
        ensures
            final(self).wf(),
            final(self).st() == old(self).st(),
            final(self).skill_list() == old(self).skill_list(),
            final(self).template_list() == old(self).template_list(),
            final(self).spec_max_tokens() == old(self).spec_max_tokens(),
            old(self).st().phase != HarnessPhase::Idle ==> r == Err::<EntryId, HarnessError>(
                HarnessError::NotIdle(old(self).st().phase),
            ) && final(self).sess() == old(self).sess(),
            old(self).st().phase == HarnessPhase::Idle ==> match r {
                Ok(from) => from == match old(self).sess().metadata.active_cursor {
                    Some(c) => c,
                    None => target,
                } && final(self).sess().metadata.active_cursor == Some(target),
                Err(e) => e == HarnessError::Session(SessionError::ConcurrentModification)
                    && final(self).sess() == old(self).sess(),
            },
    {
        if self.state.phase != HarnessPhase::Idle {
            return Err(HarnessError::NotIdle(self.state.phase));
        }
        let meta = self.session.metadata();
        let from = match meta.active_cursor {
            Some(c) => c,
            None => target,
        };
        match self.session.navigate_to(target) {
            Ok(()) => Ok(from),
            Err(e) => Err(HarnessError::Session(e)),
        }
    }

    /// All branches of the session.
    pub fn list_branches(&self) -> (r: Result<Vec<BranchInfo>, HarnessError>)
        requires
            self.wf(),
        ensures
            ({
                let es = self.sess().entries;
                let leaves = crate::store::leaf_ids(es, es);
                match r {
                    Ok(bs) => bs@.len() == leaves.len() && forall|k: int|
                        0 <= k < leaves.len() ==> crate::tree::branch_info_spec(
                            es,
                            #[trigger] leaves[k],
                        ) == Ok::<BranchInfo, EntryId>(bs@[k]),
                    Err(e) => e is Session,
                }
            }),
    {
        match self.session.list_branches() {
            Ok(b) => Ok(b),
            Err(e) => Err(HarnessError::Session(e)),
        }
    }

    // ── Queues ───────────────────────────────────────────────────────────

    /// Queues a message for the start of the next prompt.
    pub fn next_turn_message(&mut self, msg: AgentMessage)
        ensures
            message_views(final(self).st().queued_next_turn@) == message_views(
                old(self).st().queued_next_turn@,
            ).push(msg@),
            final(self).st() == (HarnessState {
                queued_next_turn: final(self).st().queued_next_turn,
                ..old(self).st()
            }),
            final(self).sess() == old(self).sess(),
            final(self).wf() == old(self).wf(),
            final(self).skill_list() == old(self).skill_list(),
            final(self).template_list() == old(self).template_list(),
            final(self).spec_max_tokens() == old(self).spec_max_tokens(),
    {
        let ghost q0 = message_views(self.state.queued_next_turn@);
        let ghost mv = msg@;
        self.state.queued_next_turn.push(msg);
        proof {
            assert(message_views(self.state.queued_next_turn@) =~= q0.push(mv));
        }
    }

    /// Drops the queued next-turn messages.
    pub fn clear_all_queues(&mut self)
        ensures
            final(self).st().queued_next_turn@.len() == 0,
            final(self).st() == (HarnessState {
                queued_next_turn: final(self).st().queued_next_turn,
                ..old(self).st()
            }),
            final(self).sess() == old(self).sess(),
            final(self).wf() == old(self).wf(),
            final(self).skill_list() == old(self).skill_list(),
            final(self).template_list() == old(self).template_list(),
            final(self).spec_max_tokens() == old(self).spec_max_tokens(),
    {
        self.state.queued_next_turn = Vec::new();
    }

    /// Whether next-turn messages are queued.
    pub fn has_queued_next_turn(&self) -> (b: bool)
        ensures
            b == (self.st().queued_next_turn@.len() > 0),
    {
        self.state.queued_next_turn.len() > 0
    }

    // ── Skills and templates ─────────────────────────────────────────────

    /// The prompt that invokes the named skill, with optional extra
    /// instructions; `SkillNotFound` when no skill has that name.
    pub fn skill_prompt(&self, name: &str, additional: Option<&str>) -> (r: Result<
        String,
        HarnessError,
    >)
        ensures
            match find_skill(self.skill_list(), name@) {
                Some(k) => r matches Ok(t) && t@ == crate::skills::skill_invocation(
                    k@,
                    match additional {
                        Some(x) => Some(x@),
                        None => None,
                    },
                ),
                None => r matches Err(HarnessError::SkillNotFound(m)) && m@ == name@,
            },
    {
        let mut i: usize = 0;
        let t = String::from_str(name);
        proof {
            assert(self.skills@.subrange(0, self.skills@.len() as int) =~= self.skills@);
        }
        while i < self.skills.len()
            invariant
                t@ == name@,
                i <= self.skills@.len(),
                find_skill(self.skills@, name@) == find_skill(
                    self.skills@.subrange(i as int, self.skills@.len() as int),
                    name@,
                ),
            decreases self.skills.len() - i,
        {
            let ghost rest = self.skills@.subrange(i as int, self.skills@.len() as int);
            proof {
                assert(rest.drop_first() =~= self.skills@.subrange(i + 1, self.skills@.len() as int));
                assert(rest[0] == self.skills@[i as int]);
                assert(find_skill(rest, name@) == if rest[0].name@ == name@ {
                    Some(rest[0])
                } else {
                    find_skill(rest.drop_first(), name@)
                });
            }
            if self.skills[i].name == t {
                return Ok(format_skill_invocation(&self.skills[i], additional));
            }
            i = i + 1;
        }
        proof {
            assert(self.skills@.subrange(i as int, self.skills@.len() as int) =~= Seq::<Skill>::empty());
        }
        Err(HarnessError::SkillNotFound(String::from_str(name)))
    }

    /// The named template expanded with the arguments; `TemplateNotFound`
    /// when no template has that name.
    pub fn template_prompt(&self, name: &str, args: &Vec<String>) -> (r: Result<
        String,
        HarnessError,
    >)
        ensures
            match find_template(self.template_list(), name@) {
                Some(t) => r matches Ok(s) && s@ == crate::skills::expand_from(
                    t.content@,
                    args@.map_values(|a: String| a@),
                    0,
                ),
                None => r matches Err(HarnessError::TemplateNotFound(m)) && m@ == name@,
            },
    {
        let mut i: usize = 0;
        let t = String::from_str(name);
        proof {
            assert(self.templates@.subrange(0, self.templates@.len() as int) =~= self.templates@);
        }
        while i < self.templates.len()
            invariant
                t@ == name@,
                i <= self.templates@.len(),
                find_template(self.templates@, name@) == find_template(
                    self.templates@.subrange(i as int, self.templates@.len() as int),
                    name@,
                ),
            decreases self.templates.len() - i,
        {
            let ghost rest = self.templates@.subrange(i as int, self.templates@.len() as int);
            proof {
                assert(rest.drop_first() =~= self.templates@.subrange(
                    i + 1,
                    self.templates@.len() as int,
                ));
                assert(rest[0] == self.templates@[i as int]);
                assert(find_template(rest, name@) == if rest[0].name@ == name@ {
                    Some(rest[0])
                } else {
                    find_template(rest.drop_first(), name@)
                });
            }
            if self.templates[i].name == t {
                return Ok(invoke_template(&self.templates[i], args.as_slice()));
            }
            i = i + 1;
        }
        proof {
            assert(self.templates@.subrange(i as int, self.templates@.len() as int) =~= Seq::<
                PromptTemplate,
            >::empty());
        }
        Err(HarnessError::TemplateNotFound(String::from_str(name)))
    }

    // ── Compaction ───────────────────────────────────────────────────────

    /// Starts a compaction: refused with `NotIdle` outside the idle phase;
    /// otherwise the phase is `Compacting`.
    pub fn begin_compact(&mut self) -> (r: Result<(), HarnessError>)
        ensures
            old(self).st().phase != HarnessPhase::Idle ==> r == Err::<(), HarnessError>(
                HarnessError::NotIdle(old(self).st().phase),
            ) && *final(self) == *old(self),
            old(self).st().phase == HarnessPhase::Idle ==> r is Ok && final(self).st() == (
            HarnessState { phase: HarnessPhase::Compacting, ..old(self).st() }),
            final(self).sess() == old(self).sess(),
            final(self).wf() == old(self).wf(),
            final(self).skill_list() == old(self).skill_list(),
            final(self).template_list() == old(self).template_list(),
            final(self).spec_max_tokens() == old(self).spec_max_tokens(),
    {
        if self.state.phase != HarnessPhase::Idle {
            return Err(HarnessError::NotIdle(self.state.phase));
        }
        self.state.phase = HarnessPhase::Compacting;
        Ok(())
    }

    /// Ends a compaction: the harness is idle again.
    pub fn end_compact(&mut self)
        ensures
            final(self).st() == (HarnessState { phase: HarnessPhase::Idle, ..old(self).st() }),
            final(self).sess() == old(self).sess(),
            final(self).wf() == old(self).wf(),
            final(self).skill_list() == old(self).skill_list(),
            final(self).template_list() == old(self).template_list(),
            final(self).spec_max_tokens() == old(self).spec_max_tokens(),
    {
        self.state.phase = HarnessPhase::Idle;
    }

    /// The settings a compaction of this harness uses.
    pub fn compaction_settings(&self) -> (s: CompactionSettings)
        ensures
            s == harness_compaction_settings(self.st(), self.spec_max_tokens()),
    {
        CompactionSettings {
            enabled: true,
            reserve_tokens: 16_384,
            keep_recent_tokens: 20_000,
            summary_model: self.state.model.clone(),
            summary_model_info: match self.state.model_info {
                Some(i) => i,
                None => ModelInfo { context_window: 200_000, max_tokens: self.max_tokens },
            },
        }
    }

    /// Plans a compaction of the active path: its entries, the preparation
    /// and the settings. An empty path, or one that needs no compaction, is
    /// refused as having too few tokens.
    pub fn compaction_plan(&self) -> (r: Result<
        (Vec<SessionEntry>, CompactionPreparation, CompactionSettings),
        HarnessError,
    >)
        requires
            self.wf(),
            active_path(self.sess().entries, self.sess().metadata.active_cursor) matches Ok(p)
                ==> entries_tokens(p) <= usize::MAX,
        ensures
            match active_path(self.sess().entries, self.sess().metadata.active_cursor) {
                Err(x) => r == Err::<
                    (Vec<SessionEntry>, CompactionPreparation, CompactionSettings),
                    HarnessError,
                >(HarnessError::Session(SessionError::EntryNotFound(x))),
                Ok(p) => {
                    let settings = harness_compaction_settings(self.st(), self.spec_max_tokens());
                    let plan = compaction_plan(
                        p,
                        last_compaction(p),
                        settings,
                        settings.summary_model_info,
                    );
                    if p.len() == 0 || plan is None {
                        r == Err::<
                            (Vec<SessionEntry>, CompactionPreparation, CompactionSettings),
                            HarnessError,
                        >(HarnessError::Compaction(CompactionError::InsufficientTokens))
                    } else {
                        r matches Ok((path, prep, s)) && entry_views(path@) == p && s == settings
                            && crate::compaction::preparation_matches(
                            prep,
                            p,
                            last_compaction(p),
                            plan->Some_0,
                        )
                    }
                },
            },
    {
        let path = match self.session.read_active_path() {
            Ok(p) => p,
            Err(e) => {
                return Err(HarnessError::Session(e));
            },
        };
        if path.len() == 0 {
            return Err(HarnessError::Compaction(CompactionError::InsufficientTokens));
        }
        let last = last_compaction_of(&path);
        let settings = self.compaction_settings();
        let m_info = settings.summary_model_info;
        proof {
            let p = entry_views(path@);
            let lv: Option<crate::session::CompactionEntryView> = match &last {
                Some(c) => Some(c@),
                None => None,
            };
            match lv {
                Some(c) => crate::store::lemma_find_first(p, c.first_kept_entry),
                None => {},
            }
            let st = crate::compaction::compact_start(p, lv);
            crate::compaction::lemma_entries_tokens_split(p, st);
        }
        let prep = match &last {
            Some(c) => prepare_compaction(path.as_slice(), Some(c), &settings, &m_info),
            None => prepare_compaction(path.as_slice(), None, &settings, &m_info),
        };
        match prep {
            Some(p) => Ok((path, p, settings)),
            None => Err(HarnessError::Compaction(CompactionError::InsufficientTokens)),
        }
    }

    /// Records a compaction's result in the session and reports what it
    /// achieved: the entries before the first kept one (none when it is not
    /// on the path) were compressed. The file operations are recorded (as the
    /// given JSON text) only when there are any.
    pub fn apply_compaction_result(
        &mut self,
        result: CompactionResult,
        path: &Vec<SessionEntry>,
        details_json: Option<String>,
    ) -> (r: Result<CompactionStats, HarnessError>)
        requires
            old(self).wf(),
        ensures
            final(self).wf(),
            final(self).st() == old(self).st(),
            final(self).skill_list() == old(self).skill_list(),
            final(self).template_list() == old(self).template_list(),
            final(self).spec_max_tokens() == old(self).spec_max_tokens(),
            match r {
                Ok(stats) => {
                    let k = crate::session::find_first(entry_views(path@), result.first_kept_entry);
                    &&& stats.tokens_before == result.tokens_before
                    &&& stats.tokens_after == result.tokens_after
                    &&& stats.compressed_entries == if k >= 0 {
                        k
                    } else {
                        0
                    }
                    &&& final(self).sess().entries.len() == old(self).sess().entries.len() + 1
                    &&& final(self).sess().entries.last().payload == PayloadView::Compaction(
                        crate::session::CompactionEntryView {
                            summary_message: result.summary_message@,
                            first_kept_entry: result.first_kept_entry,
                            tokens_before: result.tokens_before,
                            from_hook: false,
                            details: if result.file_operations@.len() == 0 {
                                None
                            } else {
                                details_json
                            },
                        },
                    )
                },
                Err(e) => e == HarnessError::Session(SessionError::ConcurrentModification),
            },
    {
        let compressed = match crate::compaction::position_of(path.as_slice(), result.first_kept_entry) {
            Some(i) => i,
            None => 0,
        };
        let details = if result.file_operations.len() == 0 {
            None
        } else {
            details_json
        };
        let tokens_before = result.tokens_before;
        let tokens_after = result.tokens_after;
        let entry = CompactionEntry {
            summary_message: result.summary_message,
            first_kept_entry: result.first_kept_entry,
            tokens_before,
            from_hook: false,
            details,
        };
        match self.session.append(SessionEntryPayload::Compaction(entry)) {
            Ok(_) => Ok(CompactionStats { tokens_before, tokens_after, compressed_entries: compressed }),
            Err(e) => Err(HarnessError::Session(e)),
        }
    }

    /// Ends a run: nothing streams or is pending, and the harness is idle.
    pub fn end_run(&mut self)
        ensures
            final(self).st() == (HarnessState {
                streaming_message: None,
                pending_tool_calls: final(self).st().pending_tool_calls,
                phase: HarnessPhase::Idle,
                ..old(self).st()
            }),
            final(self).st().pending_tool_calls@.len() == 0,
            final(self).sess() == old(self).sess(),
            final(self).wf() == old(self).wf(),
            final(self).skill_list() == old(self).skill_list(),
            final(self).template_list() == old(self).template_list(),
            final(self).spec_max_tokens() == old(self).spec_max_tokens(),
    {
        self.state.streaming_message = None;
        self.state.pending_tool_calls = Vec::new();
        self.state.phase = HarnessPhase::Idle;
    }
}


/// The texts of `a` that are not in `b`, as a list.
pub fn set_difference(a: &Vec<String>, b: &Vec<String>) -> (r: Vec<String>)
    ensures
        text_set(r@) == text_set(a@).difference(text_set(b@)),
{
    let mut out: Vec<String> = Vec::new();
    let mut i: usize = 0;
    proof {
        assert(text_set(out@) =~= text_set(a@.subrange(0, 0)).difference(text_set(b@)));
    }
    while i < a.len()
        invariant
            i <= a@.len(),
            text_set(out@) == text_set(a@.subrange(0, i as int)).difference(text_set(b@)),
        decreases a.len() - i,
    {
        let ghost o0 = text_set(out@);
        proof {
            lemma_text_set_push(a@.subrange(0, i as int), a@[i as int]);
            assert(a@.subrange(0, i + 1) =~= a@.subrange(0, i as int).push(a@[i as int]));
        }
        if !name_listed(b, &a[i]) {
            set_insert(&mut out, &a[i]);
            proof {
                assert(!text_set(b@).contains(a@[i as int]@));
                assert(text_set(out@) =~= text_set(a@.subrange(0, i + 1)).difference(text_set(b@)));
            }
        } else {
            proof {
                let k = choose|k: int| 0 <= k < b@.len() && (#[trigger] b@[k])@ == a@[i as int]@;
                assert(text_set(b@).contains(a@[i as int]@));
                assert(text_set(out@) =~= text_set(a@.subrange(0, i + 1)).difference(text_set(b@)));
            }
        }
        i = i + 1;
    }
    proof {
        assert(a@.subrange(0, i as int) =~= a@);
    }
    out
}

/// Adding a string adds its text.
pub proof fn lemma_text_set_push(s: Seq<String>, x: String)
    ensures
        text_set(s.push(x)) == text_set(s).insert(x@),
{
    let t = s.push(x);
    assert forall|c: Seq<char>| #[trigger] text_set(t).contains(c) == text_set(s).insert(x@).contains(
        c,
    ) by {
        if text_set(s).contains(c) {
            let i = choose|i: int| 0 <= i < s.len() && (#[trigger] s[i])@ == c;
            assert(t[i] == s[i]);
        }
        if c == x@ {
            assert(t[s.len() as int]@ == c);
        }
        if text_set(t).contains(c) {
            let i = choose|i: int| 0 <= i < t.len() && (#[trigger] t[i])@ == c;
            if i < s.len() {
                assert(s[i] == t[i]);
            }
        }
    }
    assert(text_set(t) =~= text_set(s).insert(x@));
}


/// A copy of the last compaction record on a path.
pub fn last_compaction_of(path: &Vec<SessionEntry>) -> (r: Option<CompactionEntry>)
    ensures
        match r {
            Some(c) => last_compaction(entry_views(path@)) == Some(c@),
            None => last_compaction(entry_views(path@)) is None,
        },
{
    let ghost pv = entry_views(path@);
    let mut i = path.len();
    proof {
        assert(pv.subrange(0, i as int) =~= pv);
    }
    while i > 0
        invariant
            i <= path@.len(),
            pv == entry_views(path@),
            last_compaction(pv) == last_compaction(pv.subrange(0, i as int)),
        decreases i,
    {
        let ghost pre = pv.subrange(0, i as int);
        proof {
            assert(pre.drop_last() =~= pv.subrange(0, i - 1));
            assert(pre.last() == path@[i - 1]@);
        }
        if let SessionEntryPayload::Compaction(c) = &path[i - 1].payload {
            return Some(c.clone());
        }
        i = i - 1;
    }
    None
}

/// The first text of a user message among the starting messages (empty
/// when there is none): what a before-run hook sees as the prompt.
pub fn prompt_text_of(initial: &Vec<AgentMessage>) -> (t: String)
    ensures
        t@ == match first_user_text(message_views(initial@)) {
            Some(s) => s@,
            None => Seq::<char>::empty(),
        },
{
    let ghost ms = message_views(initial@);
    let mut i: usize = 0;
    proof {
        assert(ms.subrange(0, ms.len() as int) =~= ms);
    }
    while i < initial.len()
        invariant
            i <= initial@.len(),
            ms == message_views(initial@),
            first_user_text(ms) == first_user_text(ms.subrange(i as int, ms.len() as int)),
        decreases initial.len() - i,
    {
        let ghost rest = ms.subrange(i as int, ms.len() as int);
        proof {
            assert(rest.drop_first() =~= ms.subrange(i + 1, ms.len() as int));
            assert(rest[0] == initial@[i as int]@);
        }
        if let AgentMessage::User(u) = &initial[i] {
            proof {
                assert(rest[0] == (MessageView::User { content: u.content@, timestamp: u.timestamp }));
            }
            let mut j: usize = 0;
            let ghost bs = u.content@;
            proof {
                assert(bs.subrange(0, bs.len() as int) =~= bs);
            }
            while j < u.content.len()
                invariant
                    j <= bs.len(),
                    bs == u.content@,
                    first_text(bs) == first_text(bs.subrange(j as int, bs.len() as int)),
                    ms == message_views(initial@),
                    rest.len() > 0,
                    rest[0] == (MessageView::User { content: bs, timestamp: u.timestamp }),
                    first_user_text(ms) == first_user_text(rest),
                decreases u.content.len() - j,
            {
                let ghost brest = bs.subrange(j as int, bs.len() as int);
                proof {
                    assert(brest.drop_first() =~= bs.subrange(j + 1, bs.len() as int));
                    assert(brest[0] == bs[j as int]);
                }
                if let ContentBlock::Text { text } = &u.content[j] {
                    proof {
                        assert(first_text(brest) == Some(*text));
                        assert(first_text(bs) == Some(*text));
                        assert(first_user_text(rest) == Some(*text));
                    }
                    return text.clone();
                }
                j = j + 1;
            }
            proof {
                assert(bs.subrange(j as int, bs.len() as int) =~= Seq::<ContentBlock>::empty());
            }
        }
        i = i + 1;
    }
    proof {
        assert(ms.subrange(i as int, ms.len() as int) =~= Seq::<MessageView>::empty());
    }
    String::new()
}
} // verus!

//! The state of a stateful agent around the run loop: its phase, transcript,
//! configuration and what it observes while a run streams. The caller drives
//! the run and the event channels; each step here says how the state moves.
use vstd::prelude::*;
use crate::errors::AgentError;
use crate::events::AgentEvent;
use crate::turn::{name_in, name_listed, AgentContext, RunState};
use crate::types::{
    clone_messages, clone_opt_string, clone_strings, extend_messages, message_views, AgentMessage,
    AssistantMessage, ContentBlock, MessageView, ModelInfo, ThinkingLevel, UserMessage,
};

verus! {

/// Default output-token limit per call.
pub const DEFAULT_MAX_TOKENS: u32 = 8192;

/// Default capacity of the steering and follow-up queues.
pub const DEFAULT_QUEUE_CAPACITY: usize = 32;

/// Whether a run is in progress.
#[derive(Clone, Copy, PartialEq, Eq, Structural, Debug)]
pub enum AgentPhase {
    Idle,
    Running,
}

/// Observable state of an agent. Tools are held by name; the ids of tools
/// still executing form a set.
#[derive(Debug)]
pub struct AgentState {
    pub phase: AgentPhase,
    pub model: String,
    pub model_info: Option<ModelInfo>,
    pub thinking_level: ThinkingLevel,
    pub tools: Vec<String>,
    pub messages: Vec<AgentMessage>,
    pub system_prompt: Option<String>,
    pub streaming_message: Option<AssistantMessage>,
    pub pending_tool_calls: Vec<String>,
    pub error_message: Option<String>,
}

/// Construction options of an agent.
#[derive(Debug)]
pub struct AgentOptions {
    pub model: String,
    pub max_tokens: u32,
    pub queue_capacity: usize,
    pub model_info: Option<ModelInfo>,
    pub thinking_level: ThinkingLevel,
    pub tools: Vec<String>,
    pub system_prompt: Option<String>,
}

impl AgentOptions {
    /// Options with the given model and every other field at its default.
    pub fn new(model: String) -> (o: AgentOptions)
        ensures
            o.model == model,
            o.max_tokens == DEFAULT_MAX_TOKENS,
            o.queue_capacity == DEFAULT_QUEUE_CAPACITY,
            o.model_info is None,
            o.thinking_level == ThinkingLevel::Off,
            o.tools@.len() == 0,
            o.system_prompt is None,
    {
        AgentOptions {
            model,
            max_tokens: DEFAULT_MAX_TOKENS,
            queue_capacity: DEFAULT_QUEUE_CAPACITY,
            model_info: None,
            thinking_level: ThinkingLevel::Off,
            tools: Vec::new(),
            system_prompt: None,
        }
    }
}

/// The texts held in a list of strings, as a set.
pub open spec fn text_set(v: Seq<String>) -> Set<Seq<char>> {
    Set::new(|s: Seq<char>| exists|i: int| 0 <= i < v.len() && (#[trigger] v[i])@ == s)
}

/// Adds a text to a set held as a list.
pub fn set_insert(v: &mut Vec<String>, id: &String)
    ensures
        text_set(final(v)@) == text_set(old(v)@).insert(id@),
{
    let ghost v0 = v@;
    if !name_listed(v, id) {
        v.push(id.clone());
        proof {
            assert forall|s: Seq<char>| #[trigger] text_set(v@).contains(s) == text_set(
                v0,
            ).insert(id@).contains(s) by {
                if text_set(v0).contains(s) {
                    let i = choose|i: int| 0 <= i < v0.len() && (#[trigger] v0[i])@ == s;
                    assert(v@[i] == v0[i]);
                }
                if s == id@ {
                    assert(v@[v0.len() as int]@ == s);
                }
                if text_set(v@).contains(s) {
                    let i = choose|i: int| 0 <= i < v@.len() && (#[trigger] v@[i])@ == s;
                    if i < v0.len() {
                        assert(v0[i] == v@[i]);
                    }
                }
            }
            assert(text_set(v@) =~= text_set(v0).insert(id@));
        }
    } else {
        proof {
            let i = choose|i: int| 0 <= i < v0.len() && (#[trigger] v0[i])@ == id@;
            assert(text_set(v0).contains(id@));
            assert(text_set(v@) =~= text_set(v0).insert(id@));
        }
    }
}

/// Removes a text from a set held as a list.
pub fn set_remove(v: &mut Vec<String>, id: &String)
    ensures
        text_set(final(v)@) == text_set(old(v)@).remove(id@),
{
    let ghost v0 = v@;
    let mut out: Vec<String> = Vec::new();
    let mut i: usize = 0;
    while i < v.len()
        invariant
            i <= v@.len(),
            v@ == v0,
            forall|k: int| 0 <= k < out@.len() ==> (#[trigger] out@[k])@ != id@,
            forall|s: Seq<char>|
                #[trigger] text_set(out@).contains(s) <==> (s != id@ && exists|k: int|
                    0 <= k < i && (#[trigger] v0[k])@ == s),
        decreases v.len() - i,
    {
        let ghost o0 = out@;
        if v[i] != *id {
            out.push(v[i].clone());
        }
        proof {
            assert forall|s: Seq<char>| #[trigger] text_set(out@).contains(s) <==> (s != id@
                && exists|k: int| 0 <= k < i + 1 && (#[trigger] v0[k])@ == s) by {
                if text_set(out@).contains(s) {
                    let j = choose|j: int| 0 <= j < out@.len() && (#[trigger] out@[j])@ == s;
                    if j < o0.len() {
                        assert(o0[j] == out@[j]);
                        assert(text_set(o0).contains(s));
                        let k = choose|k: int| 0 <= k < i && (#[trigger] v0[k])@ == s;
                    } else {
                        assert(v0[i as int]@ == s);
                    }
                }
                if s != id@ && exists|k: int| 0 <= k < i + 1 && (#[trigger] v0[k])@ == s {
                    let k = choose|k: int| 0 <= k < i + 1 && (#[trigger] v0[k])@ == s;
                    if k < i {
                        assert(text_set(o0).contains(s));
                        let j = choose|j: int| 0 <= j < o0.len() && (#[trigger] o0[j])@ == s;
                        assert(out@[j] == o0[j]);
                    } else {
                        assert(out@[o0.len() as int]@ == s);
                    }
                }
            }
        }
        i = i + 1;
    }
    proof {
        assert(text_set(out@) =~= text_set(v0).remove(id@));
    }
    *v = out;
}

/// A user message holding one text block.
pub fn user_text_message(text: String, now: i64) -> (m: AgentMessage)
    ensures
        m@ == (MessageView::User { content: seq![ContentBlock::Text { text }], timestamp: now }),
{
    let mut content: Vec<ContentBlock> = Vec::new();
    content.push(ContentBlock::Text { text });
    proof {
        assert(content@ =~= seq![ContentBlock::Text { text }]);
    }
    AgentMessage::User(UserMessage { content, timestamp: now })
}

/// How a run starts.
#[derive(Clone, Copy, PartialEq, Eq, Structural, Debug)]
pub enum RunStart {
    /// `prompt`: the starting messages are appended to the transcript.
    Prompt,
    /// `prompt_with_messages`: the starting messages replace the transcript.
    Replace,
    /// `continue_run`: the transcript is kept as it is.
    Continue,
}

/// How a run's starting messages change the transcript: a prompt appends
/// them, an explicit message list replaces the transcript, and a continued
/// run keeps it.
pub open spec fn transcript_at_start(
    old: Seq<MessageView>,
    initial: Seq<MessageView>,
    start: RunStart,
) -> Seq<MessageView> {
    match start {
        RunStart::Prompt => old + initial,
        RunStart::Replace => initial,
        RunStart::Continue => old,
    }
}

/// Stateful agent core. Steering and follow-up messages wait in bounded
/// queues that a run takes them from.
#[derive(Debug)]
pub struct Agent {
    state: AgentState,
    max_tokens: u32,
    queue_capacity: usize,
    steer_queue: Vec<AgentMessage>,
    follow_up_queue: Vec<AgentMessage>,
}

impl Agent {
    /// The current state.
    pub closed spec fn st(&self) -> AgentState {
        self.state
    }

    /// Output-token limit per call.
    pub closed spec fn spec_max_tokens(&self) -> u32 {
        self.max_tokens
    }

    /// How many messages each queue holds at most.
    pub closed spec fn spec_queue_capacity(&self) -> usize {
        self.queue_capacity
    }

    /// The steering messages waiting, oldest first.
    pub closed spec fn steering(&self) -> Seq<MessageView> {
        message_views(self.steer_queue@)
    }

    /// The follow-up messages waiting, oldest first.
    pub closed spec fn follow_ups(&self) -> Seq<MessageView> {
        message_views(self.follow_up_queue@)
    }

    /// Everything but the queues is as in `other`.
    pub open spec fn same_but_queues(&self, other: &Agent) -> bool {
        self.st() == other.st() && self.spec_max_tokens() == other.spec_max_tokens()
            && self.spec_queue_capacity() == other.spec_queue_capacity()
    }

    /// The queues and their capacity are as in `other`.
    pub open spec fn same_queues(&self, other: &Agent) -> bool {
        self.steering() == other.steering() && self.follow_ups() == other.follow_ups()
            && self.spec_queue_capacity() == other.spec_queue_capacity()
    }

    /// An idle agent with the given options and an empty transcript.
    pub fn new(opts: AgentOptions) -> (a: Agent)
        ensures
            a.st().phase == AgentPhase::Idle,
            a.st().model == opts.model,
            a.st().model_info == opts.model_info,
            a.st().thinking_level == opts.thinking_level,
            a.st().tools == opts.tools,
            a.st().messages@.len() == 0,
            a.st().system_prompt == opts.system_prompt,
            a.st().streaming_message is None,
            a.st().pending_tool_calls@.len() == 0,
            a.st().error_message is None,
            a.spec_max_tokens() == opts.max_tokens,
            a.spec_queue_capacity() == opts.queue_capacity,
            a.steering().len() == 0,
            a.follow_ups().len() == 0,
    {
        Agent {
            state: AgentState {
                phase: AgentPhase::Idle,
                model: opts.model,
                model_info: opts.model_info,
                thinking_level: opts.thinking_level,
                tools: opts.tools,
                messages: Vec::new(),
                system_prompt: opts.system_prompt,
                streaming_message: None,
                pending_tool_calls: Vec::new(),
                error_message: None,
            },
            max_tokens: opts.max_tokens,
            queue_capacity: opts.queue_capacity,
            steer_queue: Vec::new(),
            follow_up_queue: Vec::new(),
        }
    }

    /// The current state.
    pub fn state(&self) -> (s: &AgentState)
        ensures
            *s == self.st(),
    {
        &self.state
    }

    /// Output-token limit per call.
    pub fn max_tokens(&self) -> (n: u32)
        ensures
            n == self.spec_max_tokens(),
    {
        self.max_tokens
    }

    /// Starts a run: refused with `NotIdle` while one is in progress (nothing
    /// changes). Otherwise the agent is running with the error, the streaming
    /// reply and the pending tools cleared, the transcript updated by the
    /// starting messages, fresh (empty) steering and follow-up queues, and
    /// the run state holds a snapshot of the configuration and transcript.
    pub fn begin_run(&mut self, initial: Vec<AgentMessage>, start: RunStart) -> (r: Result<
        RunState,
        AgentError,
    >)
        ensures
            old(self).st().phase != AgentPhase::Idle ==> r == Err::<RunState, AgentError>(
                AgentError::NotIdle,
            ) && *final(self) == *old(self),
            old(self).st().phase == AgentPhase::Idle ==> {
                &&& final(self).st().phase == AgentPhase::Running
                &&& final(self).st().error_message is None
                &&& final(self).st().streaming_message is None
                &&& final(self).st().pending_tool_calls@.len() == 0
                &&& message_views(final(self).st().messages@) == transcript_at_start(
                    message_views(old(self).st().messages@),
                    message_views(initial@),
                    start,
                )
                &&& final(self).steering().len() == 0
                &&& final(self).follow_ups().len() == 0
                &&& final(self).spec_queue_capacity() == old(self).spec_queue_capacity()
                &&& final(self).st().model == old(self).st().model
                &&& final(self).st().model_info == old(self).st().model_info
                &&& final(self).st().thinking_level == old(self).st().thinking_level
                &&& final(self).st().tools == old(self).st().tools
                &&& final(self).st().system_prompt == old(self).st().system_prompt
                &&& final(self).spec_max_tokens() == old(self).spec_max_tokens()
                &&& r matches Ok(s) && s.turn_index == 0 && s.ctx.system_prompt == final(self).st().system_prompt && message_views(s.ctx.messages@) == message_views(
                    final(self).st().messages@,
                ) && s.new_messages@.len() == 0 && s.model == final(self).st().model
                    && s.thinking_level == final(self).st().thinking_level && s.tool_names@
                    == final(self).st().tools@
            },
    {
        if self.state.phase != AgentPhase::Idle {
            return Err(AgentError::NotIdle);
        }
        self.state.phase = AgentPhase::Running;
        self.state.error_message = None;
        self.state.streaming_message = None;
        self.state.pending_tool_calls = Vec::new();
        self.steer_queue = Vec::new();
        self.follow_up_queue = Vec::new();
        let ghost m0 = message_views(self.state.messages@);
        match start {
            RunStart::Prompt => {
                let mut msgs = clone_messages(&self.state.messages);
                proof {
                    assert(message_views(msgs@) =~= m0);
                }
                extend_messages(&mut msgs, &initial);
                self.state.messages = msgs;
            },
            RunStart::Replace => {
                let copy = clone_messages(&initial);
                self.state.messages = copy;
                proof {
                    assert(message_views(self.state.messages@) =~= message_views(initial@));
                }
            },
            RunStart::Continue => {},
        }
        let messages = clone_messages(&self.state.messages);
        proof {
            assert(message_views(messages@) =~= message_views(self.state.messages@));
        }
        let ctx = AgentContext {
            system_prompt: clone_opt_string(&self.state.system_prompt),
            messages,
        };
        Ok(
            RunState::new(
                ctx,
                self.state.model.clone(),
                self.state.thinking_level,
                clone_strings(&self.state.tools),
            ),
        )
    }

    /// Updates what the agent observes from one event of a run: the reply
    /// being streamed, the tools executing, the last error, and (at the end)
    /// the messages the run added, which are collected in `new_messages`.
    pub fn apply_event(&mut self, ev: &AgentEvent, new_messages: &mut Vec<AgentMessage>)
        ensures
            final(self).st().phase == old(self).st().phase,
            final(self).st().model == old(self).st().model,
            final(self).st().model_info == old(self).st().model_info,
            final(self).st().thinking_level == old(self).st().thinking_level,
            final(self).st().tools == old(self).st().tools,
            final(self).st().messages == old(self).st().messages,
            final(self).st().system_prompt == old(self).st().system_prompt,
            final(self).spec_max_tokens() == old(self).spec_max_tokens(),
            match ev {
                AgentEvent::MessageUpdate { partial, .. } => final(self).st().streaming_message matches Some(p) && p@ == partial@,
                AgentEvent::MessageEnd { .. } => final(self).st().streaming_message is None,
                _ => final(self).st().streaming_message == old(self).st().streaming_message,
            },
            match ev {
                AgentEvent::ToolExecutionStart { tool_use_id, .. } => text_set(
                    final(self).st().pending_tool_calls@,
                ) == text_set(old(self).st().pending_tool_calls@).insert(tool_use_id@),
                AgentEvent::ToolExecutionEnd { tool_use_id, .. } => text_set(
                    final(self).st().pending_tool_calls@,
                ) == text_set(old(self).st().pending_tool_calls@).remove(tool_use_id@),
                _ => final(self).st().pending_tool_calls == old(self).st().pending_tool_calls,
            },
            match ev {
                AgentEvent::Error(e) => final(self).st().error_message matches Some(t) && t@
                    == e.text(),
                _ => final(self).st().error_message == old(self).st().error_message,
            },
            match ev {
                AgentEvent::AgentEnd { new_messages: m } => message_views(final(new_messages)@)
                    == message_views(old(new_messages)@) + message_views(m@),
                _ => final(new_messages)@ == old(new_messages)@,
            },
            final(self).same_queues(&*old(self)),
    {
        match ev {
            AgentEvent::MessageUpdate { partial, .. } => {
                self.state.streaming_message = Some(partial.clone());
            },
            AgentEvent::MessageEnd { .. } => {
                self.state.streaming_message = None;
            },
            AgentEvent::ToolExecutionStart { tool_use_id, .. } => {
                set_insert(&mut self.state.pending_tool_calls, tool_use_id);
            },
            AgentEvent::ToolExecutionEnd { tool_use_id, .. } => {
                set_remove(&mut self.state.pending_tool_calls, tool_use_id);
            },
            AgentEvent::Error(e) => {
                self.state.error_message = Some(e.message());
            },
            AgentEvent::AgentEnd { new_messages: m } => {
                extend_messages(new_messages, m);
            },
            _ => {},
        }
    }

    /// Ends a run: the messages it added join the transcript, and the agent
    /// is idle with nothing streaming or pending.
    pub fn end_run(&mut self, new_messages: Vec<AgentMessage>)
        ensures
            final(self).st().phase == AgentPhase::Idle,
            message_views(final(self).st().messages@) == message_views(old(self).st().messages@)
                + message_views(new_messages@),
            final(self).st().streaming_message is None,
            final(self).st().pending_tool_calls@.len() == 0,
            final(self).st().model == old(self).st().model,
            final(self).st().model_info == old(self).st().model_info,
            final(self).st().thinking_level == old(self).st().thinking_level,
            final(self).st().tools == old(self).st().tools,
            final(self).st().system_prompt == old(self).st().system_prompt,
            final(self).st().error_message == old(self).st().error_message,
            final(self).spec_max_tokens() == old(self).spec_max_tokens(),
            final(self).same_queues(&*old(self)),
    {
        extend_messages(&mut self.state.messages, &new_messages);
        self.state.streaming_message = None;
        self.state.pending_tool_calls = Vec::new();
        self.state.phase = AgentPhase::Idle;
    }

    /// Clears the transcript and the run-time fields, keeping the model,
    /// tools and system prompt.
    pub fn reset(&mut self)
        ensures
            final(self).st().messages@.len() == 0,
            final(self).st().streaming_message is None,
            final(self).st().pending_tool_calls@.len() == 0,
            final(self).st().error_message is None,
            final(self).st().phase == old(self).st().phase,
            final(self).st().model == old(self).st().model,
            final(self).st().model_info == old(self).st().model_info,
            final(self).st().thinking_level == old(self).st().thinking_level,
            final(self).st().tools == old(self).st().tools,
            final(self).st().system_prompt == old(self).st().system_prompt,
            final(self).spec_max_tokens() == old(self).spec_max_tokens(),
            final(self).same_queues(&*old(self)),
    {
        self.state.messages = Vec::new();
        self.state.streaming_message = None;
        self.state.pending_tool_calls = Vec::new();
        self.state.error_message = None;
    }

    /// Changes the model (and its metadata) for the next turn.
    pub fn set_model(&mut self, model: String, info: Option<ModelInfo>)
        ensures
            final(self).st() == (AgentState { model: model, model_info: info, ..old(self).st() }),
            final(self).spec_max_tokens() == old(self).spec_max_tokens(),
            final(self).same_queues(&*old(self)),
    {
        self.state.model = model;
        self.state.model_info = info;
    }

    /// Changes the thinking level for the next turn.
    pub fn set_thinking_level(&mut self, level: ThinkingLevel)
        ensures
            final(self).st() == (AgentState { thinking_level: level, ..old(self).st() }),
            final(self).spec_max_tokens() == old(self).spec_max_tokens(),
            final(self).same_queues(&*old(self)),
    {
        self.state.thinking_level = level;
    }

    /// Replaces the tool list for the next turn.
    pub fn set_tools(&mut self, tools: Vec<String>)
        ensures
            final(self).st() == (AgentState { tools: tools, ..old(self).st() }),
            final(self).spec_max_tokens() == old(self).spec_max_tokens(),
            final(self).same_queues(&*old(self)),
    {
        self.state.tools = tools;
    }

    /// Sets or clears the system prompt for the next turn.
    pub fn set_system_prompt(&mut self, prompt: Option<String>)
        ensures
            final(self).st() == (AgentState { system_prompt: prompt, ..old(self).st() }),
            final(self).spec_max_tokens() == old(self).spec_max_tokens(),
            final(self).same_queues(&*old(self)),
    {
        self.state.system_prompt = prompt;
    }

    /// Queues a steering message for the running loop; it is dropped when
    /// the queue is full.
    pub fn steer_message(&mut self, msg: AgentMessage)
        ensures
            final(self).same_but_queues(&*old(self)),
            final(self).follow_ups() == old(self).follow_ups(),
            final(self).steering() == if old(self).steering().len() < old(self).spec_queue_capacity() {
                old(self).steering().push(msg@)
            } else {
                old(self).steering()
            },
    {
        if self.steer_queue.len() < self.queue_capacity {
            let ghost s0 = message_views(self.steer_queue@);
            self.steer_queue.push(msg);
            proof {
                assert(message_views(self.steer_queue@) =~= s0.push(msg@));
            }
        }
    }

    /// Queues a follow-up message, taken when the loop would stop; it is
    /// dropped when the queue is full.
    pub fn follow_up_message(&mut self, msg: AgentMessage)
        ensures
            final(self).same_but_queues(&*old(self)),
            final(self).steering() == old(self).steering(),
            final(self).follow_ups() == if old(self).follow_ups().len() < old(self).spec_queue_capacity() {
                old(self).follow_ups().push(msg@)
            } else {
                old(self).follow_ups()
            },
    {
        if self.follow_up_queue.len() < self.queue_capacity {
            let ghost s0 = message_views(self.follow_up_queue@);
            self.follow_up_queue.push(msg);
            proof {
                assert(message_views(self.follow_up_queue@) =~= s0.push(msg@));
            }
        }
    }

    /// Queues a text as a steering user message, stamped with the current
    /// time.
    pub fn steer(&mut self, text: String)
        ensures
            final(self).same_but_queues(&*old(self)),
            final(self).follow_ups() == old(self).follow_ups(),
            old(self).steering().len() < old(self).spec_queue_capacity() ==> exists|now: i64|
                final(self).steering() == old(self).steering().push(
                    MessageView::User { content: seq![ContentBlock::Text { text }], timestamp: now },
                ),
            old(self).steering().len() >= old(self).spec_queue_capacity() ==> final(self).steering()
                == old(self).steering(),
    {
        let now = crate::types::now_millis();
        self.steer_message(user_text_message(text, now));
    }

    /// Queues a text as a follow-up user message, stamped with the current
    /// time.
    pub fn follow_up(&mut self, text: String)
        ensures
            final(self).same_but_queues(&*old(self)),
            final(self).steering() == old(self).steering(),
            old(self).follow_ups().len() < old(self).spec_queue_capacity() ==> exists|now: i64|
                final(self).follow_ups() == old(self).follow_ups().push(
                    MessageView::User { content: seq![ContentBlock::Text { text }], timestamp: now },
                ),
            old(self).follow_ups().len() >= old(self).spec_queue_capacity() ==> final(self).follow_ups()
                == old(self).follow_ups(),
    {
        let now = crate::types::now_millis();
        self.follow_up_message(user_text_message(text, now));
    }

    /// Empties the steering queue.
    pub fn clear_steering_queue(&mut self)
        ensures
            final(self).same_but_queues(&*old(self)),
            final(self).steering().len() == 0,
            final(self).follow_ups() == old(self).follow_ups(),
    {
        self.steer_queue = Vec::new();
    }

    /// Empties the follow-up queue.
    pub fn clear_follow_up_queue(&mut self)
        ensures
            final(self).same_but_queues(&*old(self)),
            final(self).follow_ups().len() == 0,
            final(self).steering() == old(self).steering(),
    {
        self.follow_up_queue = Vec::new();
    }

    /// Empties both queues.
    pub fn clear_all_queues(&mut self)
        ensures
            final(self).same_but_queues(&*old(self)),
            final(self).steering().len() == 0,
            final(self).follow_ups().len() == 0,
    {
        self.clear_steering_queue();
        self.clear_follow_up_queue();
    }

    /// Whether a steering or follow-up message is waiting.
    pub fn has_queued_messages(&self) -> (b: bool)
        ensures
            b == (self.steering().len() > 0 || self.follow_ups().len() > 0),
    {
        self.steer_queue.len() > 0 || self.follow_up_queue.len() > 0
    }

    /// The running loop takes every waiting steering message, oldest first.
    pub fn take_steering(&mut self) -> (taken: Vec<AgentMessage>)
        ensures
            final(self).same_but_queues(&*old(self)),
            message_views(taken@) == old(self).steering(),
            final(self).steering().len() == 0,
            final(self).follow_ups() == old(self).follow_ups(),
    {
        let mut taken = Vec::new();
        std::mem::swap(&mut taken, &mut self.steer_queue);
        taken
    }

    /// The running loop takes the oldest waiting follow-up message, if any.
    pub fn take_follow_up(&mut self) -> (m: Option<AgentMessage>)
        ensures
            final(self).same_but_queues(&*old(self)),
            final(self).steering() == old(self).steering(),
            old(self).follow_ups().len() == 0 ==> m is None && final(self).follow_ups().len() == 0,
            old(self).follow_ups().len() > 0 ==> (m matches Some(x) && x@ == old(self).follow_ups()[0]
                && final(self).follow_ups() == old(self).follow_ups().drop_first()),
    {
        if self.follow_up_queue.len() == 0 {
            return None;
        }
        let ghost q0 = self.follow_up_queue@;
        let x = self.follow_up_queue.remove(0);
        proof {
            assert(self.follow_up_queue@ =~= q0.drop_first());
            assert(message_views(self.follow_up_queue@) =~= message_views(q0).drop_first());
        }
        Some(x)
    }
}

} // verus!

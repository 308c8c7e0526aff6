//! The turn-by-turn decisions of an agent run. The caller performs the
//! outside work (hooks, the provider call, tool execution, queues) and hands
//! each outcome to one of these steps, which updates the run's state and
//! says what comes next.
use vstd::prelude::*;
use crate::agent_loop::{
    backoff, batch_terminates, budget_of, call_targets, call_view, calls_of, collect_tool_calls,
    match_tool_calls, outcome_view, retryable, should_terminate, thinking_budget,
    tool_result_message, unknown_tool_error, unknown_tool_text, ProviderErrorKind, RetryConfig,
    ToolCall,
};
use crate::errors::{AgentError, ToolError};
use crate::events::AgentEvent;
use crate::types::{
    clone_messages, clone_opt_string, clone_strings, extend_messages, message_views, AgentMessage,
    AssistantMessage, ContentBlock, MessageView, StopReason, ThinkingLevel, ToolResult,
};

verus! {

/// The context a run works on: the system prompt and the transcript.
#[derive(Debug)]
pub struct AgentContext {
    pub system_prompt: Option<String>,
    pub messages: Vec<AgentMessage>,
}

/// What the next turn changes; unset fields keep their value. `tools`
/// replaces the tool list (by name); `active_tools` then keeps only the
/// named tools.
#[derive(Debug)]
pub struct NextTurnDirective {
    pub context: Option<AgentContext>,
    pub model: Option<String>,
    pub thinking_level: Option<ThinkingLevel>,
    pub tools: Option<Vec<String>>,
    pub active_tools: Option<Vec<String>>,
}

/// State of one run: the context, what the run added, the turn, and the
/// configuration the next request uses.
#[derive(Debug)]
pub struct RunState {
    pub turn_index: u32,
    pub ctx: AgentContext,
    pub new_messages: Vec<AgentMessage>,
    pub model: String,
    pub thinking_level: ThinkingLevel,
    pub tool_names: Vec<String>,
}

/// How a request offers tools.
#[derive(Clone, Copy, PartialEq, Eq, Structural, Debug)]
pub enum ToolChoiceMode {
    /// No tools are offered.
    Disabled,
    /// The model may call any offered tool.
    Auto,
}

/// The parts of a provider request that the run decides.
#[derive(Debug)]
pub struct RequestShape {
    pub model: String,
    pub max_tokens: u32,
    pub system_prompt: Option<String>,
    pub tool_choice: ToolChoiceMode,
    pub thinking_budget: Option<u32>,
}

/// What a completed reply leads to.
#[derive(Debug)]
pub enum ReplyOutcome {
    /// The stream ended without a complete reply.
    Failed(AgentError),
    /// The reply asks for tools: each call and the position of the tool that
    /// runs it (none for an unknown tool).
    RunTools { calls: Vec<ToolCall>, targets: Vec<Option<usize>> },
    /// The reply ends the turn without tools.
    Finished { stop_reason: StopReason },
}

/// What follows a turn that used no tools.
#[derive(Clone, Copy, PartialEq, Eq, Structural, Debug)]
pub enum AfterStop {
    /// A follow-up message was taken; the next turn starts.
    Continue,
    /// The run goes on: prepare the next turn, then advance.
    Prepare,
    /// The run ends.
    End,
}

/// `b` extends `a`.
pub open spec fn extends(a: Seq<MessageView>, b: Seq<MessageView>) -> bool {
    a.len() <= b.len() && b.subrange(0, a.len() as int) == a
}

/// The calls whose tool is known (`known`) or unknown (`!known`), in order.
pub open spec fn picked(calls: Seq<ToolCall>, targets: Seq<Option<usize>>, known: bool) -> Seq<
    ToolCall,
>
    decreases calls.len(),
{
    if calls.len() == 0 || targets.len() != calls.len() {
        seq![]
    } else {
        let r = picked(calls.drop_last(), targets.drop_last(), known);
        if (targets.last() is Some) == known {
            r.push(calls.last())
        } else {
            r
        }
    }
}

/// The transcript message of a tool outcome.
pub open spec fn is_result_message(
    m: MessageView,
    id: String,
    r: Result<crate::types::ToolResultView, ToolError>,
    now: i64,
) -> bool {
    match r {
        Ok(t) => m == MessageView::ToolResult {
            tool_use_id: id,
            content: t.content,
            is_error: false,
            timestamp: now,
        },
        Err(e) => {
            &&& m is ToolResult
            &&& m->ToolResult_tool_use_id == id
            &&& m->ToolResult_is_error
            &&& m->ToolResult_timestamp == now
            &&& m->ToolResult_content.len() == 1
            &&& m->ToolResult_content[0] is Text
            &&& m->ToolResult_content[0]->Text_text@ == e.text()
        },
    }
}

/// The wait before a retry, as [`RetryConfig::delay_for`] computes it.
pub open spec fn delay_of(cfg: RetryConfig, attempt: u32, e: ProviderErrorKind) -> u64 {
    match e {
        ProviderErrorKind::RateLimit { retry_after_ms: Some(h) } => h,
        ProviderErrorKind::Overloaded { retry_after_ms: Some(h) } => h,
        _ => backoff(cfg.base_delay_ms, attempt),
    }
}

/// The retry policy in force: the configured one, or none at all.
pub open spec fn policy(retry: Option<RetryConfig>) -> RetryConfig {
    match retry {
        Some(r) => r,
        None => RetryConfig { max_retries: 0, base_delay_ms: 0 },
    }
}

/// `n` is among `names` (by text).
pub open spec fn name_in(names: Seq<String>, n: String) -> bool {
    exists|i: int| 0 <= i < names.len() && (#[trigger] names[i])@ == n@
}

/// The names of `base` that are among `active`, in order.
pub open spec fn kept_names(base: Seq<String>, active: Seq<String>) -> Seq<String>
    decreases base.len(),
{
    if base.len() == 0 {
        seq![]
    } else {
        let r = kept_names(base.drop_last(), active);
        if name_in(active, base.last()) {
            r.push(base.last())
        } else {
            r
        }
    }
}

/// Whether a retry follows a provider error, and after how many
/// milliseconds: only for retryable errors while retries are left.
pub fn retry_decision(retry: Option<RetryConfig>, attempt: u32, e: ProviderErrorKind) -> (d: Option<
    u64,
>)
    ensures
        d is Some <==> retryable(e) && attempt < policy(retry).max_retries,
        d matches Some(ms) ==> ms == delay_of(policy(retry), attempt, e),
{
    let cfg = match retry {
        Some(r) => r,
        None => RetryConfig::new(0, 0),
    };
    if crate::agent_loop::is_retryable(e) && cfg.can_retry(attempt) {
        Some(cfg.delay_for(attempt, e))
    } else {
        None
    }
}

/// Rate limits, overloads and timeouts are transient and retried while
/// retries remain; any other provider error ends the run. A retry waits for
/// the provider's hint when it gives one, else for the backoff, which on the
/// first retry is the base delay.
pub proof fn law_transient_errors_are_retried(cfg: RetryConfig, attempt: u32, e: ProviderErrorKind)
    requires
        attempt < cfg.max_retries,
    ensures
        (retryable(e) && attempt < policy(Some(cfg)).max_retries) <==> (e is RateLimit
            || e is Overloaded || e is Timeout),
        e is Overloaded && e->Overloaded_retry_after_ms is None ==> delay_of(policy(Some(cfg)), attempt, e)
            == backoff(cfg.base_delay_ms, attempt),
        e is RateLimit && e->RateLimit_retry_after_ms is Some ==> delay_of(policy(Some(cfg)), attempt, e)
            == e->RateLimit_retry_after_ms->Some_0,
        backoff(cfg.base_delay_ms, 0) == cfg.base_delay_ms,
{
    assert(vstd::arithmetic::power2::pow2(0) == 1) by {
        vstd::arithmetic::power2::lemma2_to64();
    }
    let b = cfg.base_delay_ms;
    assert(b * vstd::arithmetic::power2::pow2(0) == b);
    assert(backoff(b, 0u32) == b);
}

/// Whether `n` is among `names` (by text).
pub fn name_listed(names: &Vec<String>, n: &String) -> (b: bool)
    ensures
        b == name_in(names@, *n),
{
    let mut i: usize = 0;
    while i < names.len()
        invariant
            i <= names@.len(),
            forall|k: int| 0 <= k < i ==> (#[trigger] names@[k])@ != n@,
        decreases names.len() - i,
    {
        if names[i] == *n {
            assert(names@[i as int]@ == n@);
            return true;
        }
        i = i + 1;
    }
    false
}

/// The tools of `base` that `active` names, in order.
pub fn keep_active(base: &Vec<String>, active: &Vec<String>) -> (r: Vec<String>)
    ensures
        r@ == kept_names(base@, active@),
{
    let mut out: Vec<String> = Vec::new();
    let mut i: usize = 0;
    while i < base.len()
        invariant
            i <= base@.len(),
            out@ == kept_names(base@.subrange(0, i as int), active@),
        decreases base.len() - i,
    {
        proof {
            assert(base@.subrange(0, i + 1).drop_last() =~= base@.subrange(0, i as int));
        }
        if name_listed(active, &base[i]) {
            out.push(base[i].clone());
        }
        i = i + 1;
    }
    proof {
        assert(base@.subrange(0, i as int) =~= base@);
    }
    out
}

proof fn lemma_picked_step(calls: Seq<ToolCall>, targets: Seq<Option<usize>>, known: bool, k: int)
    requires
        calls.len() == targets.len(),
        0 <= k < calls.len(),
    ensures
        picked(calls.subrange(0, k + 1), targets.subrange(0, k + 1), known) == if (
        targets[k] is Some) == known {
            picked(calls.subrange(0, k), targets.subrange(0, k), known).push(calls[k])
        } else {
            picked(calls.subrange(0, k), targets.subrange(0, k), known)
        },
{
    assert(calls.subrange(0, k + 1).drop_last() =~= calls.subrange(0, k));
    assert(targets.subrange(0, k + 1).drop_last() =~= targets.subrange(0, k));
}

/// Every call appears among the picked calls of its kind.
proof fn lemma_picked_covers(calls: Seq<ToolCall>, targets: Seq<Option<usize>>, k: int)
    requires
        calls.len() == targets.len(),
        0 <= k < calls.len(),
    ensures
        exists|p: int|
            0 <= p < picked(calls, targets, targets[k] is Some).len() && #[trigger] picked(
                calls,
                targets,
                targets[k] is Some,
            )[p] == calls[k],
    decreases calls.len(),
{
    let known = targets[k] is Some;
    let r = picked(calls.drop_last(), targets.drop_last(), known);
    if k == calls.len() - 1 {
        assert(picked(calls, targets, known) == r.push(calls.last()));
        assert(picked(calls, targets, known)[r.len() as int] == calls[k]);
    } else {
        lemma_picked_covers(calls.drop_last(), targets.drop_last(), k);
        assert(calls.drop_last()[k] == calls[k]);
        assert(targets.drop_last()[k] == targets[k]);
        let p = choose|p: int| 0 <= p < r.len() && #[trigger] r[p] == calls[k];
        if (targets.last() is Some) == known {
            assert(picked(calls, targets, known)[p] == calls[k]);
        } else {
            assert(picked(calls, targets, known)[p] == calls[k]);
        }
    }
}

impl RunState {
    /// A run at turn zero over the given context and configuration.
    pub fn new(
        ctx: AgentContext,
        model: String,
        thinking_level: ThinkingLevel,
        tool_names: Vec<String>,
    ) -> (s: RunState)
        ensures
            s.turn_index == 0,
            s.ctx == ctx,
            s.new_messages@.len() == 0,
            s.model == model,
            s.thinking_level == thinking_level,
            s.tool_names == tool_names,
    {
        RunState { turn_index: 0, ctx, new_messages: Vec::new(), model, thinking_level, tool_names }
    }

    /// Top of a turn: a cancelled run stops with `Aborted`; otherwise, from
    /// the second turn on, the steering messages queued since are added to
    /// the context and to what the run added. Nothing is taken from the
    /// steering queue before the first turn.
    pub fn start_turn(&mut self, aborted: bool, steered: Vec<AgentMessage>) -> (r: Option<AgentError>)
        requires
            old(self).turn_index == 0 ==> steered@.len() == 0,
        ensures
            aborted ==> r == Some(AgentError::Aborted) && *final(self) == *old(self),
            !aborted ==> r is None,
            !aborted ==> message_views(final(self).ctx.messages@) == message_views(
                old(self).ctx.messages@,
            ) + message_views(steered@),
            !aborted ==> message_views(final(self).new_messages@) == message_views(
                old(self).new_messages@,
            ) + message_views(steered@),
            !aborted ==> final(self).turn_index == old(self).turn_index && final(self).model
                == old(self).model && final(self).thinking_level == old(self).thinking_level
                && final(self).tool_names == old(self).tool_names && final(self).ctx.system_prompt
                == old(self).ctx.system_prompt,
    {
        if aborted {
            return Some(AgentError::Aborted);
        }
        extend_messages(&mut self.ctx.messages, &steered);
        extend_messages(&mut self.new_messages, &steered);
        None
    }

    /// Applies the outcome of the context transform: a new context, or the
    /// error that ends the run (state unchanged).
    pub fn apply_transform(&mut self, r: Result<AgentContext, AgentError>) -> (e: Option<AgentError>)
        ensures
            match r {
                Ok(c) => e is None && final(self).ctx == c && final(self).turn_index == old(self).turn_index && final(self).new_messages == old(self).new_messages
                    && final(self).model == old(self).model && final(self).thinking_level == old(self).thinking_level && final(self).tool_names == old(self).tool_names,
                Err(x) => e == Some(x) && *final(self) == *old(self),
            },
    {
        match r {
            Ok(c) => {
                self.ctx = c;
                None
            },
            Err(x) => Some(x),
        }
    }

    /// The event that opens the current turn.
    pub fn turn_start_event(&self) -> (ev: AgentEvent)
        ensures
            ev == (AgentEvent::TurnStart { index: self.turn_index }),
    {
        AgentEvent::TurnStart { index: self.turn_index }
    }

    /// The shape of the next provider request: the current model, the
    /// system prompt, tools offered only when there are any, and the thinking
    /// budget of the current level.
    pub fn request_shape(&self, max_tokens: u32) -> (q: RequestShape)
        ensures
            q.model == self.model,
            q.max_tokens == max_tokens,
            q.system_prompt == self.ctx.system_prompt,
            q.tool_choice == if self.tool_names@.len() == 0 {
                ToolChoiceMode::Disabled
            } else {
                ToolChoiceMode::Auto
            },
            q.thinking_budget == budget_of(self.thinking_level),
    {
        RequestShape {
            model: self.model.clone(),
            max_tokens,
            system_prompt: clone_opt_string(&self.ctx.system_prompt),
            tool_choice: if self.tool_names.len() == 0 {
                ToolChoiceMode::Disabled
            } else {
                ToolChoiceMode::Auto
            },
            thinking_budget: thinking_budget(self.thinking_level),
        }
    }

    /// Takes the reply the stream completed. Without one the run fails.
    /// Otherwise the reply joins the context and what the run added; a reply
    /// that stops for tools yields its calls matched to the registered tools,
    /// any other reply ends the turn (a missing stop reason counts as the end
    /// of the turn).
    pub fn accept_reply(&mut self, reply: &Option<AssistantMessage>) -> (r: ReplyOutcome)
        ensures
            reply is None ==> *final(self) == *old(self) && (r matches ReplyOutcome::Failed(
                AgentError::Internal(m),
            ) && m@ == "stream ended without MessageEnd"@),
            reply matches Some(a) ==> {
                let sr = match a.stop_reason {
                    Some(s) => s,
                    None => StopReason::EndTurn,
                };
                &&& message_views(final(self).ctx.messages@) == message_views(
                    old(self).ctx.messages@,
                ).push(MessageView::Assistant(a@))
                &&& message_views(final(self).new_messages@) == message_views(
                    old(self).new_messages@,
                ).push(MessageView::Assistant(a@))
                &&& final(self).turn_index == old(self).turn_index
                &&& final(self).ctx.system_prompt == old(self).ctx.system_prompt
                &&& final(self).model == old(self).model
                &&& final(self).thinking_level == old(self).thinking_level
                &&& final(self).tool_names == old(self).tool_names
                &&& sr == StopReason::ToolUse ==> (r matches ReplyOutcome::RunTools {
                    calls,
                    targets,
                } && calls@.map_values(|c: ToolCall| call_view(c)) == calls_of(a.content@)
                    && targets@.len() == calls@.len() && forall|k: int|
                    0 <= k < calls@.len() ==> match #[trigger] targets@[k] {
                        Some(t) => crate::agent_loop::tool_index(
                            old(self).tool_names@,
                            calls@[k].name,
                        ) == t,
                        None => crate::agent_loop::tool_index(
                            old(self).tool_names@,
                            calls@[k].name,
                        ) == -1,
                    })
                &&& sr != StopReason::ToolUse ==> r == ReplyOutcome::Finished { stop_reason: sr }
            },
    {
        match reply {
            None => ReplyOutcome::Failed(
                AgentError::Internal(String::from_str("stream ended without MessageEnd")),
            ),
            Some(a) => {
                let ghost m0 = message_views(self.ctx.messages@);
                let ghost n0 = message_views(self.new_messages@);
                let msg = AgentMessage::Assistant(a.clone());
                let msg2 = AgentMessage::Assistant(a.clone());
                self.ctx.messages.push(msg);
                self.new_messages.push(msg2);
                proof {
                    assert(message_views(self.ctx.messages@) =~= m0.push(MessageView::Assistant(a@)));
                    assert(message_views(self.new_messages@) =~= n0.push(
                        MessageView::Assistant(a@),
                    ));
                }
                let sr = match a.stop_reason {
                    Some(s) => s,
                    None => StopReason::EndTurn,
                };
                if sr == StopReason::ToolUse {
                    let calls = collect_tool_calls(&a.content);
                    let targets = match_tool_calls(calls.as_slice(), self.tool_names.as_slice());
                    ReplyOutcome::RunTools { calls, targets }
                } else {
                    ReplyOutcome::Finished { stop_reason: sr }
                }
            },
        }
    }

    /// Records the outcomes of a tool batch. `executed` holds, in call order,
    /// the outcomes of the calls whose tool is known; every call to an unknown
    /// tool is answered with an error, after them, so that no call stays
    /// unanswered. Each outcome becomes a tool-result message (at time `now`)
    /// in the context and in what the run added. Returns the outcomes and
    /// whether they end the run.
    pub fn record_tool_results(
        &mut self,
        calls: &Vec<ToolCall>,
        targets: &Vec<Option<usize>>,
        executed: Vec<(String, Result<ToolResult, ToolError>)>,
        now: i64,
    ) -> (r: (Vec<(String, Result<ToolResult, ToolError>)>, bool))
        requires
            calls@.len() == targets@.len(),
            executed@.len() == picked(calls@, targets@, true).len(),
            forall|j: int|
                0 <= j < executed@.len() ==> (#[trigger] executed@[j]).0 == picked(
                    calls@,
                    targets@,
                    true,
                )[j].id,
        ensures
            ({
                let res = r.0@;
                let unknown = picked(calls@, targets@, false);
                let n = executed@.len();
                &&& res.len() == n + unknown.len()
                &&& forall|j: int| 0 <= j < n ==> #[trigger] res[j] == executed@[j]
                &&& forall|u: int|
                    0 <= u < unknown.len() ==> (#[trigger] res[n + u]).0 == unknown[u].id && (
                    res[n + u].1 matches Err(ToolError::Execution(m)) && m@ == unknown_tool_text(
                        unknown[u].name@,
                    ))
                &&& forall|k: int|
                    0 <= k < calls@.len() ==> exists|j: int|
                        0 <= j < res.len() && (#[trigger] res[j]).0 == (#[trigger] calls@[k]).id
                &&& r.1 == batch_terminates(
                    res.map_values(
                        |p: (String, Result<ToolResult, ToolError>)| outcome_view(p.1),
                    ),
                )
                &&& message_views(final(self).ctx.messages@).len() == message_views(
                    old(self).ctx.messages@,
                ).len() + res.len()
                &&& message_views(final(self).new_messages@).len() == message_views(
                    old(self).new_messages@,
                ).len() + res.len()
                &&& extends(
                    message_views(old(self).ctx.messages@),
                    message_views(final(self).ctx.messages@),
                )
                &&& extends(
                    message_views(old(self).new_messages@),
                    message_views(final(self).new_messages@),
                )
                &&& forall|j: int|
                    0 <= j < res.len() ==> is_result_message(
                        #[trigger] message_views(final(self).ctx.messages@)[old(self).ctx.messages@.len() + j],
                        res[j].0,
                        outcome_view(res[j].1),
                        now,
                    )
                &&& forall|j: int|
                    0 <= j < res.len() ==> is_result_message(
                        #[trigger] message_views(final(self).new_messages@)[old(self).new_messages@.len() + j],
                        res[j].0,
                        outcome_view(res[j].1),
                        now,
                    )
            }),
            final(self).turn_index == old(self).turn_index,
            final(self).ctx.system_prompt == old(self).ctx.system_prompt,
            final(self).model == old(self).model,
            final(self).thinking_level == old(self).thinking_level,
            final(self).tool_names == old(self).tool_names,
    {
        let ghost known = picked(calls@, targets@, true);
        let ghost unknown = picked(calls@, targets@, false);
        let ghost n = executed@.len();
        let ghost ex = executed@;
        let mut results = executed;
        let mut k: usize = 0;
        proof {
            assert(calls@.subrange(0, 0) =~= Seq::<ToolCall>::empty());
        }
        while k < calls.len()
            invariant
                k <= calls@.len(),
                calls@.len() == targets@.len(),
                unknown == picked(calls@, targets@, false),
                n == ex.len(),
                results@.len() == n + picked(
                    calls@.subrange(0, k as int),
                    targets@.subrange(0, k as int),
                    false,
                ).len(),
                forall|j: int| 0 <= j < n ==> #[trigger] results@[j] == ex[j],
                forall|u: int|
                    0 <= u < picked(
                        calls@.subrange(0, k as int),
                        targets@.subrange(0, k as int),
                        false,
                    ).len() ==> (#[trigger] results@[n + u]).0 == picked(
                        calls@.subrange(0, k as int),
                        targets@.subrange(0, k as int),
                        false,
                    )[u].id && (results@[n + u].1 matches Err(ToolError::Execution(m)) && m@
                        == unknown_tool_text(
                        picked(calls@.subrange(0, k as int), targets@.subrange(0, k as int), false)[u].name@,
                    )),
            decreases calls.len() - k,
        {
            proof {
                lemma_picked_step(calls@, targets@, false, k as int);
            }
            if targets[k].is_none() {
                let e = unknown_tool_error(calls[k].name.as_str());
                results.push((calls[k].id.clone(), Err(e)));
            }
            k = k + 1;
        }
        proof {
            assert(calls@.subrange(0, k as int) =~= calls@);
            assert(targets@.subrange(0, k as int) =~= targets@);
        }
        // Every call is answered.
        proof {
            assert forall|c: int| 0 <= c < calls@.len() implies exists|j: int|
                0 <= j < results@.len() && (#[trigger] results@[j]).0 == (
                #[trigger] calls@[c]).id by {
                lemma_picked_covers(calls@, targets@, c);
                if targets@[c] is Some {
                    let p = choose|p: int| 0 <= p < known.len() && #[trigger] known[p] == calls@[c];
                    assert(results@[p] == ex[p]);
                    assert(ex[p].0 == known[p].id);
                } else {
                    let p = choose|p: int|
                        0 <= p < unknown.len() && #[trigger] unknown[p] == calls@[c];
                    assert(results@[n + p].0 == unknown[p].id);
                }
            }
        }
        let ghost m0 = message_views(self.ctx.messages@);
        let ghost a0 = message_views(self.new_messages@);
        let mut j: usize = 0;
        while j < results.len()
            invariant
                j <= results@.len(),
                message_views(self.ctx.messages@).len() == m0.len() + j,
                message_views(self.new_messages@).len() == a0.len() + j,
                message_views(self.ctx.messages@).subrange(0, m0.len() as int) == m0,
                message_views(self.new_messages@).subrange(0, a0.len() as int) == a0,
                forall|t: int|
                    0 <= t < j ==> is_result_message(
                        #[trigger] message_views(self.ctx.messages@)[m0.len() + t],
                        results@[t].0,
                        outcome_view(results@[t].1),
                        now,
                    ),
                forall|t: int|
                    0 <= t < j ==> is_result_message(
                        #[trigger] message_views(self.new_messages@)[a0.len() + t],
                        results@[t].0,
                        outcome_view(results@[t].1),
                        now,
                    ),
                self.turn_index == old(self).turn_index,
                self.ctx.system_prompt == old(self).ctx.system_prompt,
                self.model == old(self).model,
                self.thinking_level == old(self).thinking_level,
                self.tool_names == old(self).tool_names,
            decreases results.len() - j,
        {
            let m = tool_result_message(&results[j].0, &results[j].1, now);
            let m2 = m.clone();
            let ghost mv = m@;
            let ghost before = message_views(self.ctx.messages@);
            let ghost before2 = message_views(self.new_messages@);
            self.ctx.messages.push(m);
            self.new_messages.push(m2);
            proof {
                assert(is_result_message(mv, results@[j as int].0, outcome_view(results@[j as int].1), now));
                assert(message_views(self.ctx.messages@) =~= before.push(mv));
                assert(message_views(self.new_messages@) =~= before2.push(mv));
                assert(message_views(self.ctx.messages@).subrange(0, m0.len() as int) =~= before.subrange(
                    0,
                    m0.len() as int,
                ));
                assert(message_views(self.new_messages@).subrange(0, a0.len() as int) =~= before2.subrange(
                    0,
                    a0.len() as int,
                ));
            }
            j = j + 1;
        }
        let terminate = should_terminate(results.as_slice());
        (results, terminate)
    }

    /// Applies a next-turn directive: each set field replaces the current
    /// value; `active_tools` then keeps only the named tools.
    pub fn apply_directive(&mut self, d: NextTurnDirective)
        ensures
            final(self).ctx == match d.context {
                Some(c) => c,
                None => old(self).ctx,
            },
            final(self).model == match d.model {
                Some(m) => m,
                None => old(self).model,
            },
            final(self).thinking_level == match d.thinking_level {
                Some(l) => l,
                None => old(self).thinking_level,
            },
            final(self).tool_names@ == ({
                let base = match d.tools {
                    Some(t) => t@,
                    None => old(self).tool_names@,
                };
                match d.active_tools {
                    Some(a) => kept_names(base, a@),
                    None => base,
                }
            }),
            final(self).turn_index == old(self).turn_index,
            final(self).new_messages == old(self).new_messages,
    {
        if let Some(c) = d.context {
            self.ctx = c;
        }
        if let Some(m) = d.model {
            self.model = m;
        }
        if let Some(l) = d.thinking_level {
            self.thinking_level = l;
        }
        if let Some(t) = d.tools {
            self.tool_names = t;
        }
        if let Some(a) = d.active_tools {
            self.tool_names = keep_active(&self.tool_names, &a);
        }
    }

    /// After a turn without tools: when the run would stop, a waiting
    /// follow-up message starts the next turn instead; when it would not
    /// stop, the next turn is prepared.
    pub fn after_stop_check(&mut self, should_stop: bool, follow_up: Option<AgentMessage>) -> (r:
        AfterStop)
        requires
            !should_stop ==> follow_up is None,
            old(self).turn_index < u32::MAX,
        ensures
            should_stop && follow_up is Some ==> r == AfterStop::Continue && final(self).turn_index
                == old(self).turn_index + 1 && message_views(final(self).ctx.messages@)
                == message_views(old(self).ctx.messages@).push(follow_up->Some_0@)
                && message_views(final(self).new_messages@) == message_views(
                old(self).new_messages@,
            ).push(follow_up->Some_0@) && final(self).ctx.system_prompt == old(self).ctx.system_prompt && final(self).model == old(self).model
                && final(self).thinking_level == old(self).thinking_level && final(self).tool_names
                == old(self).tool_names,
            should_stop && follow_up is None ==> r == AfterStop::End && *final(self) == *old(self),
            !should_stop ==> r == AfterStop::Prepare && *final(self) == *old(self),
    {
        if !should_stop {
            return AfterStop::Prepare;
        }
        match follow_up {
            Some(m) => {
                let ghost mv = m@;
                let ghost m0 = message_views(self.ctx.messages@);
                let ghost n0 = message_views(self.new_messages@);
                let m2 = m.clone();
                self.ctx.messages.push(m);
                self.new_messages.push(m2);
                proof {
                    assert(message_views(self.ctx.messages@) =~= m0.push(mv));
                    assert(message_views(self.new_messages@) =~= n0.push(mv));
                }
                self.turn_index = self.turn_index + 1;
                AfterStop::Continue
            },
            None => AfterStop::End,
        }
    }

    /// Moves on to the next turn.
    pub fn advance(&mut self)
        requires
            old(self).turn_index < u32::MAX,
        ensures
            final(self).turn_index == old(self).turn_index + 1,
            final(self).ctx == old(self).ctx,
            final(self).new_messages == old(self).new_messages,
            final(self).model == old(self).model,
            final(self).thinking_level == old(self).thinking_level,
            final(self).tool_names == old(self).tool_names,
    {
        self.turn_index = self.turn_index + 1;
    }

    /// The event that closes the run, with every message the run added.
    pub fn finish(self) -> (ev: AgentEvent)
        ensures
            ev matches AgentEvent::AgentEnd { new_messages } && message_views(new_messages@)
                == message_views(self.new_messages@),
    {
        AgentEvent::AgentEnd { new_messages: self.new_messages }
    }
}

/// The event that reports a finished tool; a failure is reported as an
/// execution failure carrying the failure's text.
pub fn execution_end_event(id: &String, r: &Result<ToolResult, ToolError>) -> (ev: AgentEvent)
    ensures
        ev matches AgentEvent::ToolExecutionEnd { tool_use_id, result } && tool_use_id == *id
            && match r {
            Ok(t) => result matches Ok(t2) && t2@ == t@,
            Err(e) => result matches Err(ToolError::Execution(m)) && m@ == e.text(),
        },
{
    let result = match r {
        Ok(t) => Ok(t.clone()),
        Err(e) => Err(ToolError::Execution(e.message())),
    };
    AgentEvent::ToolExecutionEnd { tool_use_id: id.clone(), result }
}

} // verus!

use llm_harness::agent_loop::{
    after_hook_outcome, effective_args, group_by_sequential, outcome_for_hook, AfterToolCallDecision,
    BeforeToolCallDecision, ProviderErrorKind, RetryConfig, ToolCall, ToolResultPatch,
};
use llm_harness::errors::{AgentError, ToolError};
use llm_harness::events::{
    convert_stop_reason, convert_usage, AgentEvent, ContentKind, ProviderEvent, ProviderStop,
    ProviderUsage,
};
use llm_harness::stream::StreamingState;
use llm_harness::turn::{
    execution_end_event, keep_active, retry_decision, AfterStop, AgentContext, NextTurnDirective,
    ReplyOutcome, RunState, ToolChoiceMode,
};
use llm_harness::types::{
    AgentMessage, AssistantMessage, ContentBlock, FileOpKind, FileOperation, EntryId, StopReason,
    StreamOptions, ThinkingLevel, ToolExecutionMode, ToolResult, UserMessage,
};

const P: ToolExecutionMode = ToolExecutionMode::Parallel;
const S: ToolExecutionMode = ToolExecutionMode::Sequential;

#[test]
fn group_all_parallel_single_group() {
    let groups = group_by_sequential(&[P, P], ToolExecutionMode::Parallel);
    assert_eq!(groups, vec![vec![0usize, 1]]);
}

#[test]
fn group_sequential_splits_at_boundary() {
    let groups = group_by_sequential(&[P, P, S, P], ToolExecutionMode::Parallel);
    assert_eq!(groups, vec![vec![0, 1], vec![2], vec![3]]);
}

#[test]
fn group_all_sequential_each_own_group() {
    let groups = group_by_sequential(&[S, S], ToolExecutionMode::Sequential);
    assert_eq!(groups, vec![vec![0], vec![1]]);
}

#[test]
fn group_empty_returns_empty() {
    let groups = group_by_sequential(&[], ToolExecutionMode::Parallel);
    assert!(groups.is_empty());
}

#[test]
fn group_default_sequential_makes_parallel_tools_sequential() {
    let groups = group_by_sequential(&[P, P, P], ToolExecutionMode::Sequential);
    assert_eq!(groups, vec![vec![0], vec![1], vec![2]]);
}

#[test]
fn stop_reason_end_turn() {
    assert_eq!(convert_stop_reason(&ProviderStop::EndTurn), StopReason::EndTurn);
}

#[test]
fn stop_reason_tool_use() {
    assert_eq!(convert_stop_reason(&ProviderStop::ToolUse), StopReason::ToolUse);
}

#[test]
fn stop_reason_content_filter_maps_to_other() {
    assert_eq!(convert_stop_reason(&ProviderStop::ContentFilter), StopReason::Other);
}

#[test]
fn stop_reason_other_maps_to_other() {
    assert_eq!(convert_stop_reason(&ProviderStop::Other("x".into())), StopReason::Other);
}

#[test]
fn convert_usage_maps_fields() {
    let u = ProviderUsage {
        input_tokens: 10,
        output_tokens: 5,
        cached_input_tokens: 3,
        cache_creation_input_tokens: 1,
        reasoning_tokens: 99,
    };
    let tu = convert_usage(u);
    assert_eq!(tu.input_tokens, 10);
    assert_eq!(tu.output_tokens, 5);
    assert_eq!(tu.cache_read_tokens, 3);
    assert_eq!(tu.cache_creation_tokens, 1);
}

fn make_state() -> StreamingState {
    StreamingState::new("test-model".into())
}

#[test]
fn content_start_text_returns_no_events() {
    let mut s = make_state();
    let events = s.process(ProviderEvent::ContentStart { index: 0, kind: ContentKind::Text }, 10);
    assert!(events.is_empty());
}

#[test]
fn text_delta_emits_text_delta_and_message_update() {
    let mut s = make_state();
    s.process(ProviderEvent::ContentStart { index: 0, kind: ContentKind::Text }, 10);
    let events = s.process(ProviderEvent::TextDelta { index: 0, text: "hello".into() }, 10);
    assert_eq!(events.len(), 2);
    assert!(matches!(&events[0], AgentEvent::TextDelta { text, .. } if text == "hello"));
    assert!(matches!(&events[1], AgentEvent::MessageUpdate { .. }));
}

#[test]
fn reasoning_delta_emits_thinking_delta() {
    let mut s = make_state();
    s.process(ProviderEvent::ContentStart { index: 0, kind: ContentKind::Reasoning }, 10);
    let events = s.process(ProviderEvent::ReasoningDelta { index: 0, text: "think".into() }, 10);
    assert!(matches!(&events[0], AgentEvent::ThinkingDelta { thinking, signature: None, .. } if thinking == "think"));
}

#[test]
fn tool_content_start_emits_tool_call_start() {
    let mut s = make_state();
    let events = s.process(
        ProviderEvent::ContentStart {
            index: 0,
            kind: ContentKind::ToolInvocation { id: "c1".into(), name: "bash".into() },
        },
        10,
    );
    assert!(matches!(&events[0], AgentEvent::ToolCallStart { tool_use_id, name, .. } if tool_use_id == "c1" && name == "bash"));
}

#[test]
fn tool_delta_emits_args_delta() {
    let mut s = make_state();
    s.process(
        ProviderEvent::ContentStart {
            index: 0,
            kind: ContentKind::ToolInvocation { id: "c1".into(), name: "bash".into() },
        },
        10,
    );
    let events = s.process(ProviderEvent::ToolDelta { index: 0, arguments: r#"{"cmd":"#.into() }, 10);
    assert!(matches!(&events[0], AgentEvent::ToolCallArgsDelta { tool_use_id, partial_input } if tool_use_id == "c1" && partial_input.contains("cmd")));
}

#[test]
fn content_stop_for_tool_emits_tool_call_end_with_parsed_args() {
    let mut s = make_state();
    s.process(
        ProviderEvent::ContentStart {
            index: 0,
            kind: ContentKind::ToolInvocation { id: "c1".into(), name: "bash".into() },
        },
        10,
    );
    s.process(ProviderEvent::ToolDelta { index: 0, arguments: r#"{"cmd":"ls"}"#.into() }, 10);
    let events = s.process(ProviderEvent::ContentStop { index: 0 }, 10);
    match &events[0] {
        AgentEvent::ToolCallEnd { tool_use_id, args } => {
            assert_eq!(tool_use_id, "c1");
            let v: serde_json::Value = serde_json::from_str(args).unwrap();
            assert_eq!(v["cmd"], "ls");
        }
        other => panic!("unexpected event {:?}", other),
    }
}

#[test]
fn message_stop_emits_message_end_with_complete_assistant_message() {
    let mut s = make_state();
    s.process(ProviderEvent::ContentStart { index: 0, kind: ContentKind::Text }, 10);
    s.process(ProviderEvent::TextDelta { index: 0, text: "done".into() }, 10);
    let events = s.process(
        ProviderEvent::MessageStop {
            stop_reason: ProviderStop::EndTurn,
            usage: ProviderUsage {
                input_tokens: 5,
                output_tokens: 3,
                cached_input_tokens: 0,
                cache_creation_input_tokens: 0,
                reasoning_tokens: 0,
            },
        },
        10,
    );
    let msg_end = events.iter().find(|e| matches!(e, AgentEvent::MessageEnd { .. }));
    assert!(msg_end.is_some());
    if let AgentEvent::MessageEnd { message, .. } = msg_end.unwrap() {
        assert!(matches!(message.stop_reason, Some(StopReason::EndTurn)));
        assert_eq!(message.usage.as_ref().unwrap().input_tokens, 5);
        assert!(matches!(&message.content[0], ContentBlock::Text { text } if text == "done"));
    }
}

#[test]
fn agent_start_event_has_messages() {
    let ev = AgentEvent::AgentStart { initial_messages: vec![] };
    assert!(matches!(ev, AgentEvent::AgentStart { .. }));
}

#[test]
fn agent_end_event_carries_new_messages() {
    let ev = AgentEvent::AgentEnd { new_messages: vec![] };
    assert!(matches!(ev, AgentEvent::AgentEnd { .. }));
}

fn make_assistant() -> AssistantMessage {
    AssistantMessage {
        content: vec![],
        stop_reason: None,
        timestamp: 0,
        provider: None,
        api: None,
        model: None,
        usage: None,
        error_message: None,
    }
}

#[test]
fn turn_end_carries_tool_results() {
    let result: Result<ToolResult, ToolError> =
        Ok(ToolResult { content: vec![], details: "null".into(), terminate: false });
    let ev = AgentEvent::TurnEnd { index: 0, message: make_assistant(), tool_results: vec![("call_1".into(), result)] };
    assert!(matches!(ev, AgentEvent::TurnEnd { index: 0, .. }));
}

#[test]
fn error_event() {
    let ev = AgentEvent::Error(AgentError::Aborted);
    assert!(matches!(ev, AgentEvent::Error(_)));
}

#[test]
fn before_tool_call_decision_allow() {
    let d = BeforeToolCallDecision::Allow;
    assert!(matches!(d, BeforeToolCallDecision::Allow));
}

#[test]
fn after_tool_call_decision_passthrough() {
    let d = AfterToolCallDecision::Passthrough;
    assert!(matches!(d, AfterToolCallDecision::Passthrough));
}

#[test]
fn tool_result_patch_all_none() {
    let p = ToolResultPatch { content: None, details: None, is_error: None, terminate: None };
    assert!(p.content.is_none());
}

#[test]
fn agent_context_default_no_system_prompt() {
    let ctx = AgentContext { system_prompt: None, messages: vec![] };
    assert!(ctx.system_prompt.is_none());
}

#[test]
fn stream_options_default() {
    let opts = StreamOptions::default();
    assert!(opts.timeout_ms.is_none());
    assert!(opts.max_retries.is_none());
    assert!(opts.headers.is_empty());
}

#[test]
fn tool_result_defaults_terminate_false() {
    let r = ToolResult { content: vec![ContentBlock::Text { text: "done".into() }], details: "null".into(), terminate: false };
    assert!(!r.terminate);
}

#[test]
fn file_operation_fields() {
    let op = FileOperation { path: "/foo/bar.rs".into(), kind: FileOpKind::Read, at_entry: EntryId::new() };
    assert!(op.path.ends_with("bar.rs"));
    assert!(matches!(op.kind, FileOpKind::Read));
}

// ── Hooks around a tool ─────────────────────────────────────────────────────

fn ok_result(text: &str, terminate: bool) -> ToolResult {
    ToolResult { content: vec![ContentBlock::Text { text: text.into() }], details: "null".into(), terminate }
}

#[test]
fn before_hook_decides_arguments() {
    assert_eq!(effective_args("{}".into(), BeforeToolCallDecision::Allow).unwrap(), "{}");
    assert_eq!(effective_args("{}".into(), BeforeToolCallDecision::Modify("{\"a\":1}".into())).unwrap(), "{\"a\":1}");
    let denied = effective_args("{}".into(), BeforeToolCallDecision::Deny(ok_result("denied", false))).unwrap_err();
    assert!(matches!(&denied.content[0], ContentBlock::Text { text } if text == "denied"));
}

#[test]
fn after_hook_patch_overrides_terminate() {
    let patch = ToolResultPatch { content: None, details: None, is_error: None, terminate: Some(true) };
    let out = after_hook_outcome(Ok(ok_result("spy result", false)), AfterToolCallDecision::Patch(patch)).unwrap();
    assert!(out.terminate);
    assert!(matches!(&out.content[0], ContentBlock::Text { text } if text == "spy result"));
    let err = after_hook_outcome(Err(ToolError::Aborted), AfterToolCallDecision::Passthrough).unwrap_err();
    assert!(matches!(err, ToolError::Aborted));
}

#[test]
fn hook_sees_failures_as_execution_errors() {
    let seen = outcome_for_hook(&Err(ToolError::InvalidArguments("x".into()))).unwrap_err();
    assert!(matches!(seen, ToolError::Execution(m) if m == "invalid arguments: x"));
}

// ── The turn machine ────────────────────────────────────────────────────────

fn user(text: &str) -> AgentMessage {
    AgentMessage::User(UserMessage { content: vec![ContentBlock::Text { text: text.into() }], timestamp: 1 })
}

fn reply(blocks: Vec<ContentBlock>, stop: Option<StopReason>) -> AssistantMessage {
    AssistantMessage { content: blocks, stop_reason: stop, ..make_assistant() }
}

fn run(tools: &[&str]) -> RunState {
    RunState::new(
        AgentContext { system_prompt: Some("sys".into()), messages: vec![user("hi")] },
        "m".into(),
        ThinkingLevel::Medium,
        tools.iter().map(|s| s.to_string()).collect(),
    )
}

#[test]
fn aborted_turn_reports_aborted_and_changes_nothing() {
    let mut st = run(&[]);
    let e = st.start_turn(true, vec![]);
    assert!(matches!(e, Some(AgentError::Aborted)));
    assert_eq!(st.ctx.messages.len(), 1);
}

#[test]
fn steering_messages_join_from_second_turn() {
    let mut st = run(&[]);
    assert!(st.start_turn(false, vec![]).is_none());
    st.advance();
    assert!(st.start_turn(false, vec![user("steer")]).is_none());
    assert_eq!(st.ctx.messages.len(), 2);
    assert_eq!(st.new_messages.len(), 1);
}

#[test]
fn request_shape_offers_tools_only_when_present() {
    let st = run(&[]);
    let q = st.request_shape(1024);
    assert_eq!(q.tool_choice, ToolChoiceMode::Disabled);
    assert_eq!(q.thinking_budget, Some(8_192));
    assert_eq!(q.system_prompt.as_deref(), Some("sys"));
    let st = run(&["read"]);
    assert_eq!(st.request_shape(1).tool_choice, ToolChoiceMode::Auto);
}

#[test]
fn missing_reply_fails_the_run() {
    let mut st = run(&[]);
    match st.accept_reply(&None) {
        ReplyOutcome::Failed(AgentError::Internal(m)) => assert_eq!(m, "stream ended without MessageEnd"),
        other => panic!("unexpected {:?}", other),
    }
}

#[test]
fn text_reply_finishes_turn_and_follow_up_continues() {
    let mut st = run(&[]);
    let r = st.accept_reply(&Some(reply(vec![ContentBlock::Text { text: "Hi!".into() }], None)));
    assert!(matches!(r, ReplyOutcome::Finished { stop_reason: StopReason::EndTurn }));
    assert_eq!(st.new_messages.len(), 1);
    assert_eq!(st.after_stop_check(true, Some(user("more"))), AfterStop::Continue);
    assert_eq!(st.turn_index, 1);
    assert_eq!(st.after_stop_check(true, None), AfterStop::End);
    assert_eq!(st.after_stop_check(false, None), AfterStop::Prepare);
    match st.finish() {
        AgentEvent::AgentEnd { new_messages } => {
            assert_eq!(new_messages.len(), 2);
            assert!(matches!(new_messages[0], AgentMessage::Assistant(_)));
        }
        _ => panic!("expected AgentEnd"),
    }
}

#[test]
fn tool_calls_are_matched_and_unknown_ones_answered() {
    let mut st = run(&["echo"]);
    let r = st.accept_reply(&Some(reply(
        vec![
            ContentBlock::ToolUse { id: "c1".into(), name: "echo".into(), input: "{\"x\":1}".into() },
            ContentBlock::ToolUse { id: "c2".into(), name: "nope".into(), input: "{}".into() },
        ],
        Some(StopReason::ToolUse),
    )));
    let (calls, targets): (Vec<ToolCall>, Vec<Option<usize>>) = match r {
        ReplyOutcome::RunTools { calls, targets } => (calls, targets),
        other => panic!("unexpected {:?}", other),
    };
    assert_eq!(targets, vec![Some(0), None]);
    let executed = vec![("c1".to_string(), Ok(ok_result("done", false)))];
    let (results, terminate) = st.record_tool_results(&calls, &targets, executed, 42);
    assert!(!terminate);
    assert_eq!(results.len(), 2);
    assert_eq!(results[1].0, "c2");
    assert!(matches!(&results[1].1, Err(ToolError::Execution(m)) if m == "Unknown tool: nope"));
    // context: user, assistant, two tool results
    assert_eq!(st.ctx.messages.len(), 4);
    match &st.ctx.messages[3] {
        AgentMessage::ToolResult(t) => {
            assert_eq!(t.tool_use_id, "c2");
            assert!(t.is_error);
            assert_eq!(t.timestamp, 42);
        }
        _ => panic!("expected tool result"),
    }
}

#[test]
fn terminating_tools_end_the_run() {
    let mut st = run(&["term"]);
    let r = st.accept_reply(&Some(reply(
        vec![ContentBlock::ToolUse { id: "c1".into(), name: "term".into(), input: "{}".into() }],
        Some(StopReason::ToolUse),
    )));
    if let ReplyOutcome::RunTools { calls, targets } = r {
        let (_, terminate) =
            st.record_tool_results(&calls, &targets, vec![("c1".into(), Ok(ok_result("", true)))], 1);
        assert!(terminate);
    } else {
        panic!("expected tool calls");
    }
}

#[test]
fn directive_replaces_fields_and_filters_tools() {
    let mut st = run(&["read", "bash", "grep"]);
    st.apply_directive(NextTurnDirective {
        context: None,
        model: Some("other".into()),
        thinking_level: None,
        tools: None,
        active_tools: Some(vec!["grep".into(), "read".into()]),
    });
    assert_eq!(st.model, "other");
    assert_eq!(st.thinking_level, ThinkingLevel::Medium);
    assert_eq!(st.tool_names, vec!["read".to_string(), "grep".to_string()]);
    assert_eq!(keep_active(&vec!["a".into(), "b".into()], &vec!["b".into()]), vec!["b".to_string()]);
}

#[test]
fn retry_decisions_follow_the_policy() {
    let cfg = Some(RetryConfig::new(2, 100));
    assert_eq!(retry_decision(cfg, 0, ProviderErrorKind::Timeout), Some(100));
    assert_eq!(retry_decision(cfg, 1, ProviderErrorKind::Timeout), Some(200));
    assert_eq!(retry_decision(cfg, 2, ProviderErrorKind::Timeout), None);
    assert_eq!(retry_decision(cfg, 0, ProviderErrorKind::RateLimit { retry_after_ms: Some(7) }), Some(7));
    assert_eq!(retry_decision(cfg, 0, ProviderErrorKind::Other), None);
    assert_eq!(retry_decision(None, 0, ProviderErrorKind::Timeout), None);
}

#[test]
fn execution_end_event_reports_failures_as_text() {
    match execution_end_event(&"c9".to_string(), &Err(ToolError::Aborted)) {
        AgentEvent::ToolExecutionEnd { tool_use_id, result: Err(ToolError::Execution(m)) } => {
            assert_eq!(tool_use_id, "c9");
            assert_eq!(m, "tool aborted");
        }
        other => panic!("unexpected {:?}", other),
    }
}

#[test]
fn after_hook_patch_overrides_error_flag() {
    let patch = ToolResultPatch { content: None, details: None, is_error: Some(true), terminate: None };
    let err = after_hook_outcome(Ok(ok_result("spy result", false)), AfterToolCallDecision::Patch(patch)).unwrap_err();
    assert!(matches!(&err, ToolError::Other(m) if m == "spy result"));
    let patch = ToolResultPatch { content: None, details: None, is_error: Some(false), terminate: None };
    let ok = after_hook_outcome(Err(ToolError::Aborted), AfterToolCallDecision::Patch(patch)).unwrap();
    assert!(matches!(&ok.content[0], ContentBlock::Text { text } if text == "tool aborted"));
    assert!(!ok.terminate);
    let patch = ToolResultPatch { content: None, details: None, is_error: None, terminate: Some(true) };
    assert!(after_hook_outcome(Err(ToolError::Aborted), AfterToolCallDecision::Patch(patch)).is_err());
}

use llm_harness::agent::{user_text_message, Agent, AgentOptions, AgentPhase, RunStart};
use llm_harness::errors::{AgentError, HarnessError};
use llm_harness::events::AgentEvent;
use llm_harness::harness::{prompt_text_of, AgentHarness, AgentHarnessOptions};
use llm_harness::session::SessionEntryPayload;
use llm_harness::skills::{PromptTemplate, Skill};
use llm_harness::types::{
    AgentMessage, AssistantMessage, ContentBlock, HarnessPhase, StopReason, ThinkingLevel,
    ToolResult,
};

fn assistant(text: &str) -> AssistantMessage {
    AssistantMessage {
        content: vec![ContentBlock::Text { text: text.into() }],
        stop_reason: Some(StopReason::EndTurn),
        timestamp: 5,
        provider: None,
        api: None,
        model: None,
        usage: None,
        error_message: None,
    }
}

#[test]
fn prompt_appends_user_message_and_returns_idle() {
    let mut agent = Agent::new(AgentOptions::new("test-model".into()));
    let run = agent.begin_run(vec![user_text_message("Hello!".into(), 1)], RunStart::Prompt).unwrap();
    assert_eq!(run.ctx.messages.len(), 1);
    assert_eq!(agent.state().phase, AgentPhase::Running);
    let mut added = vec![];
    agent.apply_event(
        &AgentEvent::AgentEnd { new_messages: vec![AgentMessage::Assistant(assistant("Hi"))] },
        &mut added,
    );
    agent.end_run(added);
    assert_eq!(agent.state().phase, AgentPhase::Idle);
    assert_eq!(agent.state().messages.len(), 2);
}

#[test]
fn second_prompt_while_running_returns_not_idle() {
    let mut agent = Agent::new(AgentOptions::new("test-model".into()));
    agent.begin_run(vec![user_text_message("one".into(), 1)], RunStart::Prompt).unwrap();
    let err = agent.begin_run(vec![user_text_message("two".into(), 2)], RunStart::Prompt).unwrap_err();
    assert!(matches!(err, AgentError::NotIdle));
    assert_eq!(agent.state().messages.len(), 1);
}

#[test]
fn reset_clears_messages_preserves_model() {
    let mut agent = Agent::new(AgentOptions::new("test-model".into()));
    agent.begin_run(vec![user_text_message("Hello!".into(), 1)], RunStart::Prompt).unwrap();
    agent.end_run(vec![]);
    agent.reset();
    assert!(agent.state().messages.is_empty());
    assert_eq!(agent.state().model, "test-model");
}

#[test]
fn set_model_reflected_in_state() {
    let mut agent = Agent::new(AgentOptions::new("test-model".into()));
    agent.set_model("opus-4-7".into(), None);
    assert_eq!(agent.state().model, "opus-4-7");
}

#[test]
fn prompt_with_messages_replaces_transcript() {
    let mut agent = Agent::new(AgentOptions::new("m".into()));
    agent.begin_run(vec![user_text_message("first".into(), 1)], RunStart::Prompt).unwrap();
    agent.end_run(vec![AgentMessage::Assistant(assistant("reply"))]);
    let replacement = vec![user_text_message("a".into(), 1), AgentMessage::Assistant(assistant("b"))];
    agent.begin_run(replacement, RunStart::Replace).unwrap();
    assert_eq!(agent.state().messages.len(), 2);
    agent.end_run(vec![]);
    agent.begin_run(vec![], RunStart::Continue).unwrap();
    assert_eq!(agent.state().messages.len(), 2);
}

#[test]
fn events_update_observable_state() {
    let mut agent = Agent::new(AgentOptions::new("m".into()));
    agent.begin_run(vec![], RunStart::Continue).unwrap();
    let mut added = vec![];
    agent.apply_event(&AgentEvent::MessageUpdate { message_id: "x".into(), partial: assistant("par") }, &mut added);
    assert!(agent.state().streaming_message.is_some());
    agent.apply_event(&AgentEvent::ToolExecutionStart { tool_use_id: "c1".into(), tool_name: "t".into(), args: "{}".into() }, &mut added);
    agent.apply_event(&AgentEvent::ToolExecutionStart { tool_use_id: "c1".into(), tool_name: "t".into(), args: "{}".into() }, &mut added);
    assert_eq!(agent.state().pending_tool_calls, vec!["c1".to_string()]);
    agent.apply_event(
        &AgentEvent::ToolExecutionEnd {
            tool_use_id: "c1".into(),
            result: Ok(ToolResult { content: vec![], details: "null".into(), terminate: false }),
        },
        &mut added,
    );
    assert!(agent.state().pending_tool_calls.is_empty());
    agent.apply_event(&AgentEvent::Error(AgentError::Aborted), &mut added);
    assert_eq!(agent.state().error_message.as_deref(), Some("aborted"));
    agent.apply_event(&AgentEvent::MessageEnd { message_id: "x".into(), message: assistant("done") }, &mut added);
    assert!(agent.state().streaming_message.is_none());
}

// ── Harness ─────────────────────────────────────────────────────────────────

fn harness() -> AgentHarness {
    let mut opts = AgentHarnessOptions::new("test-model".into());
    opts.skills = vec![Skill {
        name: "deploy".into(),
        label: None,
        description: "Deploy the app".into(),
        content: "Use staging only.".into(),
        source: "/skills/deploy/SKILL.md".into(),
        disable_model_invocation: false,
    }];
    opts.templates = vec![PromptTemplate {
        name: "greet".into(),
        description: "Greets".into(),
        content: "Hello $1".into(),
        source: "/t/greet.md".into(),
    }];
    AgentHarness::new_in_memory(opts)
}

#[test]
fn prompt_while_running_returns_not_idle() {
    let mut h = harness();
    let initial = h.begin_prompt(vec![user_text_message("q".into(), 1)]).unwrap();
    h.start_run(&initial).unwrap();
    let err = h.begin_prompt(vec![user_text_message("again".into(), 2)]).unwrap_err();
    assert!(matches!(err, HarnessError::NotIdle(HarnessPhase::Turning)));
}

#[test]
fn session_has_messages_after_prompt() {
    let mut h = harness();
    let initial = h.begin_prompt(vec![user_text_message("question".into(), 1)]).unwrap();
    let ctx = h.start_run(&initial).unwrap();
    assert_eq!(ctx.messages.len(), 1);
    let mut turn = vec![];
    h.on_event(&AgentEvent::TurnStart { index: 0 }, &mut turn, 3).unwrap();
    h.on_event(&AgentEvent::MessageEnd { message_id: "m".into(), message: assistant("response") }, &mut turn, 3).unwrap();
    let flushed = h
        .on_event(&AgentEvent::TurnEnd { index: 0, message: assistant("response"), tool_results: vec![] }, &mut turn, 3)
        .unwrap();
    assert_eq!(flushed, Some(2));
    h.end_run();
    assert_eq!(h.state().phase, HarnessPhase::Idle);
    let built = h.session().build_context().unwrap();
    assert_eq!(built.messages.len(), 2);
}

#[test]
fn set_model_updates_state() {
    let mut h = harness();
    assert_eq!(h.set_model("opus-4-7".into(), None).unwrap(), Some("test-model".to_string()));
    assert_eq!(h.state().model, "opus-4-7");
    assert_eq!(h.set_model("opus-4-7".into(), None).unwrap(), None);
    let built = h.session().build_context().unwrap();
    assert_eq!(built.last_model.as_deref(), Some("opus-4-7"));
}

#[test]
fn skill_not_found_returns_error() {
    let h = harness();
    let err = h.skill_prompt("nonexistent", None).unwrap_err();
    assert!(matches!(err, HarnessError::SkillNotFound(ref n) if n == "nonexistent"));
    let text = h.skill_prompt("deploy", None).unwrap();
    assert!(text.contains("<skill name=\"deploy\""));
}

#[test]
fn template_not_found_returns_error() {
    let h = harness();
    let err = h.template_prompt("nonexistent", &vec![]).unwrap_err();
    assert!(matches!(err, HarnessError::TemplateNotFound(ref n) if n == "nonexistent"));
    assert_eq!(h.template_prompt("greet", &vec!["Bob".into()]).unwrap(), "Hello Bob");
}

#[test]
fn next_turn_injected_on_next_prompt() {
    let mut h = harness();
    h.next_turn_message(user_text_message("injected context".into(), 1));
    assert!(h.has_queued_next_turn());
    let initial = h.begin_prompt(vec![user_text_message("next question".into(), 2)]).unwrap();
    assert_eq!(initial.len(), 2);
    assert_eq!(prompt_text_of(&initial), "injected context");
    assert!(!h.has_queued_next_turn());
}

#[test]
fn set_active_tools_filters_to_subset() {
    let mut h = harness();
    h.set_tools(vec!["read".into(), "grep".into(), "bash".into()]).unwrap();
    h.set_active_tools(Some(vec!["grep".into()]));
    assert_eq!(h.loop_tools(), vec!["grep".to_string()]);
}

#[test]
fn clear_all_queues_empties_next_turn() {
    let mut h = harness();
    h.next_turn_message(user_text_message("msg".into(), 1));
    h.clear_all_queues();
    assert!(h.state().queued_next_turn.is_empty());
}

#[test]
fn set_tools_reports_added_and_removed() {
    let mut h = harness();
    h.set_tools(vec!["a".into(), "b".into()]).unwrap();
    let (added, removed) = h.set_tools(vec!["b".into(), "c".into()]).unwrap();
    assert_eq!(added, vec!["c".to_string()]);
    assert_eq!(removed, vec!["a".to_string()]);
}

#[test]
fn changes_while_running_are_buffered() {
    let mut h = harness();
    let initial = h.begin_prompt(vec![]).unwrap();
    h.start_run(&initial).unwrap();
    h.set_thinking_level(ThinkingLevel::High).unwrap();
    assert_eq!(h.state().pending_session_writes.len(), 1);
    assert!(matches!(h.state().pending_session_writes[0], SessionEntryPayload::ThinkingLevelChange { to: ThinkingLevel::High }));
    let err = h.set_session_name("x".into()).unwrap_err();
    assert!(matches!(err, HarnessError::NotIdle(HarnessPhase::Turning)));
}

#[test]
fn compaction_refused_on_empty_session() {
    let mut h = harness();
    h.begin_compact().unwrap();
    assert_eq!(h.state().phase, HarnessPhase::Compacting);
    assert!(h.begin_compact().is_err());
    assert!(matches!(
        h.compaction_plan(),
        Err(HarnessError::Compaction(llm_harness::errors::CompactionError::InsufficientTokens))
    ));
    h.end_compact();
    assert_eq!(h.state().phase, HarnessPhase::Idle);
}

#[test]
fn before_run_results_extend_messages_and_prompt() {
    let mut h = harness();
    let out = h.apply_before_run(
        vec![user_text_message("a".into(), 1)],
        None,
        vec![user_text_message("b".into(), 2)],
        Some("new system".into()),
    );
    assert_eq!(out.len(), 2);
    assert_eq!(h.state().system_prompt.as_deref(), Some("new system"));
}

#[test]
fn single_user_message_list_replaces_transcript() {
    let mut agent = Agent::new(AgentOptions::new("m".into()));
    agent.begin_run(vec![user_text_message("hi".into(), 1)], RunStart::Prompt).unwrap();
    agent.end_run(vec![AgentMessage::Assistant(assistant("Hello!"))]);
    agent.begin_run(vec![user_text_message("new".into(), 2)], RunStart::Replace).unwrap();
    agent.end_run(vec![AgentMessage::Assistant(assistant("ok"))]);
    let msgs = &agent.state().messages;
    assert_eq!(msgs.len(), 2);
    assert!(matches!(&msgs[0], AgentMessage::User(u) if u.timestamp == 2));
}

#[test]
fn steering_and_follow_up_queues() {
    let mut opts = AgentOptions::new("m".into());
    opts.queue_capacity = 2;
    let mut agent = Agent::new(opts);
    assert!(!agent.has_queued_messages());
    agent.steer("a".into());
    agent.steer("b".into());
    agent.steer("c".into());
    agent.follow_up("later".into());
    assert!(agent.has_queued_messages());
    let taken = agent.take_steering();
    assert_eq!(taken.len(), 2);
    assert!(agent.take_follow_up().is_some());
    assert!(agent.take_follow_up().is_none());
    assert!(!agent.has_queued_messages());
    agent.steer_message(user_text_message("x".into(), 1));
    agent.follow_up_message(user_text_message("y".into(), 1));
    agent.clear_steering_queue();
    assert!(agent.has_queued_messages());
    agent.clear_all_queues();
    assert!(!agent.has_queued_messages());
    agent.steer("z".into());
    agent.begin_run(vec![], RunStart::Continue).unwrap();
    assert!(!agent.has_queued_messages());
}

#[test]
fn harness_keeps_configured_max_tokens() {
    let mut opts = AgentHarnessOptions::new("m".into());
    opts.max_tokens = 4096;
    assert_eq!(AgentHarness::new_in_memory(opts).max_tokens(), 4096);
    assert_eq!(harness().max_tokens(), 8192);
}

use llm_harness::compaction::{
    estimate_tokens_for_entry, format_entries_as_text, is_valid_cut_start, prepare_compaction,
    prepare_summary_request, CompactionPreparation, CompactionSettings,
};
use llm_harness::errors::CompactionError;
use llm_harness::session::{CompactionEntry, SessionEntry, SessionEntryPayload};
use llm_harness::types::{
    AgentMessage, AssistantMessage, CompactionSummaryMessage, ContentBlock, EntryId, FileOpKind,
    ModelInfo, StopReason, TokenUsage, UserMessage,
};

fn user_entry(id: EntryId, text: &str) -> SessionEntry {
    SessionEntry {
        id,
        parent_id: None,
        timestamp: 1,
        payload: SessionEntryPayload::Message(AgentMessage::User(UserMessage {
            content: vec![ContentBlock::Text { text: text.into() }],
            timestamp: 1,
        })),
    }
}

fn assistant_entry(id: EntryId, text: &str, tokens: Option<TokenUsage>) -> SessionEntry {
    SessionEntry {
        id,
        parent_id: None,
        timestamp: 2,
        payload: SessionEntryPayload::Message(AgentMessage::Assistant(AssistantMessage {
            content: vec![ContentBlock::Text { text: text.into() }],
            stop_reason: Some(StopReason::EndTurn),
            timestamp: 2,
            provider: None,
            api: None,
            model: None,
            usage: tokens,
            error_message: None,
        })),
    }
}

fn custom_entry(id: EntryId, data: &str) -> SessionEntry {
    SessionEntry {
        id,
        parent_id: None,
        timestamp: 3,
        payload: SessionEntryPayload::Custom { custom_type: "file_operations".into(), data: data.into() },
    }
}

fn model_change_entry(id: EntryId) -> SessionEntry {
    SessionEntry {
        id,
        parent_id: None,
        timestamp: 4,
        payload: SessionEntryPayload::ModelChange { to: "new-model".into(), provider: None, model_id: None },
    }
}

fn compaction_entry(id: EntryId) -> SessionEntry {
    SessionEntry {
        id,
        parent_id: None,
        timestamp: 5,
        payload: SessionEntryPayload::Compaction(CompactionEntry {
            summary_message: AgentMessage::CompactionSummary(CompactionSummaryMessage {
                summary: "summary".into(),
                timestamp: 5,
            }),
            first_kept_entry: id,
            tokens_before: 100,
            from_hook: false,
            details: None,
        }),
    }
}

fn big_token_usage(n: u32) -> TokenUsage {
    TokenUsage { input_tokens: 0, output_tokens: n, cache_read_tokens: 0, cache_creation_tokens: 0 }
}

fn settings() -> CompactionSettings {
    CompactionSettings {
        enabled: true,
        reserve_tokens: 1000,
        keep_recent_tokens: 100,
        summary_model: "test-model".into(),
        summary_model_info: ModelInfo { context_window: 2000, max_tokens: 512 },
    }
}

fn model_info() -> ModelInfo {
    ModelInfo { context_window: 2000, max_tokens: 512 }
}

#[test]
fn no_compaction_when_disabled() {
    let settings = CompactionSettings { enabled: false, ..settings() };
    let path = vec![user_entry(EntryId::new(), "hello")];
    assert!(prepare_compaction(&path, None, &settings, &model_info()).is_none());
}

#[test]
fn no_compaction_when_under_threshold() {
    let path = vec![user_entry(EntryId::new(), "hi"), assistant_entry(EntryId::new(), "hello", None)];
    assert!(prepare_compaction(&path, None, &settings(), &model_info()).is_none());
}

#[test]
fn estimate_tokens_for_entry_counts_messages_only() {
    assert_eq!(estimate_tokens_for_entry(&model_change_entry(EntryId::new())), 0);
    assert!(estimate_tokens_for_entry(&user_entry(EntryId::new(), "hello")) > 0);
}

#[test]
fn compaction_entry_is_valid_cut_start() {
    assert!(is_valid_cut_start(&compaction_entry(EntryId::new())));
}

#[test]
fn compaction_triggered_when_over_threshold() {
    let path = vec![
        user_entry(EntryId::new(), "a"),
        assistant_entry(EntryId::new(), "b", Some(big_token_usage(900))),
        user_entry(EntryId::new(), "c"),
        assistant_entry(EntryId::new(), "d", Some(big_token_usage(900))),
        user_entry(EntryId::new(), "recent question"),
    ];
    let prep = prepare_compaction(&path, None, &settings(), &model_info());
    assert!(prep.is_some(), "should trigger compaction when over threshold");
}

#[test]
fn prepare_compaction_extracts_file_operations_from_custom_entries() {
    let file_entry_id = EntryId::new();
    let path = vec![
        user_entry(EntryId::new(), "a"),
        custom_entry(
            file_entry_id,
            r#"{"file_operations":[{"path":"src/lib.rs","kind":"read"},{"path":"src/main.rs","kind":"modify"}]}"#,
        ),
        assistant_entry(EntryId::new(), "b", Some(big_token_usage(1400))),
        user_entry(EntryId::new(), "recent"),
    ];

    let prep = prepare_compaction(&path, None, &settings(), &model_info()).unwrap();

    assert_eq!(prep.file_operations.len(), 2);
    assert_eq!(prep.file_operations[0].path, "src/lib.rs");
    assert!(matches!(prep.file_operations[0].kind, FileOpKind::Read));
    assert_eq!(prep.file_operations[0].at_entry, file_entry_id);
    assert_eq!(prep.file_operations[1].path, "src/main.rs");
    assert!(matches!(prep.file_operations[1].kind, FileOpKind::Modify));
}

#[test]
fn prepare_compaction_marks_split_turn_boundary_downgrade() {
    let u1 = EntryId::new();
    let a1 = EntryId::new();
    let u2 = EntryId::new();
    let path = vec![
        user_entry(u1, "old question"),
        assistant_entry(a1, "large answer", Some(big_token_usage(900))),
        user_entry(u2, "recent question"),
        assistant_entry(EntryId::new(), "recent answer", Some(big_token_usage(900))),
    ];

    let prep = prepare_compaction(&path, None, &settings(), &model_info()).unwrap();

    assert_eq!(prep.cut_point, u2);
    let split = prep.split_turn_prefix.expect("boundary adjustment should be visible");
    assert_eq!(split[0].id, u2);
}

#[test]
fn compact_errors_when_first_kept_entry_is_missing() {
    let path = vec![
        user_entry(EntryId::new(), "old"),
        assistant_entry(EntryId::new(), "large", Some(big_token_usage(1400))),
        user_entry(EntryId::new(), "recent"),
    ];
    let cut_point = path[2].id;
    let prep = CompactionPreparation {
        path_entries: path,
        first_kept_entry: EntryId::new(),
        cut_point,
        previous_summary: Some("previous".into()),
        estimated_tokens: 1400,
        split_turn_prefix: None,
        file_operations: vec![],
    };
    let err = prepare_summary_request(&prep, &settings()).unwrap_err();
    assert!(matches!(err, CompactionError::SummaryFailed(message) if message.contains("first kept entry")));
}

#[test]
fn cut_point_lands_on_user_message() {
    let u1 = EntryId::new();
    let a1 = EntryId::new();
    let u2 = EntryId::new();
    let a2 = EntryId::new();
    let u3 = EntryId::new();
    let path = vec![
        user_entry(u1, "old question 1"),
        assistant_entry(a1, "answer 1", Some(big_token_usage(900))),
        user_entry(u2, "old question 2"),
        assistant_entry(a2, "answer 2", Some(big_token_usage(900))),
        user_entry(u3, "recent"),
    ];
    let prep = prepare_compaction(&path, None, &settings(), &model_info()).unwrap();
    let cut_entry = path.iter().find(|e| e.id == prep.cut_point).unwrap();
    assert!(
        matches!(&cut_entry.payload, SessionEntryPayload::Message(AgentMessage::User(_))),
        "cut point must be a user message"
    );
}

#[test]
fn format_entries_as_text_includes_user_and_assistant() {
    let path = vec![user_entry(EntryId::new(), "hello"), assistant_entry(EntryId::new(), "world", None)];
    let text = format_entries_as_text(&path, 0, path.len());
    assert!(text.contains("[User]"));
    assert!(text.contains("hello"));
    assert!(text.contains("[Assistant]"));
    assert!(text.contains("world"));
}

#[test]
fn estimate_tokens_exact_values() {
    // "hello" is 5 bytes: at least one token; 4000 bytes make 1000 tokens.
    assert_eq!(estimate_tokens_for_entry(&user_entry(EntryId::new(), "hello")), 1);
    let long = "x".repeat(4000);
    assert_eq!(estimate_tokens_for_entry(&user_entry(EntryId::new(), &long)), 1000);
    assert_eq!(
        estimate_tokens_for_entry(&assistant_entry(EntryId::new(), "ignored", Some(big_token_usage(77)))),
        77
    );
}

#[test]
fn summary_request_for_valid_preparation() {
    let u1 = EntryId::new();
    let path = vec![
        user_entry(u1, "old question"),
        assistant_entry(EntryId::new(), "old answer", None),
        user_entry(EntryId::new(), "recent"),
    ];
    let cut_point = path[2].id;
    let prep = CompactionPreparation {
        path_entries: path,
        first_kept_entry: u1,
        cut_point,
        previous_summary: None,
        estimated_tokens: 10,
        split_turn_prefix: None,
        file_operations: vec![],
    };
    let big = CompactionSettings {
        summary_model_info: ModelInfo { context_window: 200_000, max_tokens: 8192 },
        ..settings()
    };
    let q = prepare_summary_request(&prep, &big).unwrap();
    assert_eq!(q.cut_index, 2);
    assert_eq!(q.model, "test-model");
    assert!(q.user_content.starts_with("Here is the conversation to summarize:"));
    assert!(q.user_content.contains("old question"));
}

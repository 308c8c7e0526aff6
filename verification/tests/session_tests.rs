use llm_harness::errors::SessionError;
use llm_harness::repo::{select_sessions, sort_sessions, InMemorySessionRepo};
use llm_harness::session::{
    CompactionEntry, CreateSessionOptions, ForkOptions, ListOrder, ListSessionOptions,
    SessionEntryPayload, SessionMetadata,
};
use llm_harness::tree::Session;
use llm_harness::types::{
    AgentMessage, AssistantMessage, CompactionSummaryMessage, ContentBlock, StopReason,
    UserMessage,
};

fn user_msg(text: &str) -> AgentMessage {
    AgentMessage::User(UserMessage {
        content: vec![ContentBlock::Text { text: text.into() }],
        timestamp: 1_000,
    })
}

fn assistant_msg(text: &str) -> AgentMessage {
    AgentMessage::Assistant(AssistantMessage {
        content: vec![ContentBlock::Text { text: text.into() }],
        stop_reason: Some(StopReason::EndTurn),
        timestamp: 2_000,
        provider: None,
        api: None,
        model: None,
        usage: None,
        error_message: None,
    })
}

fn no_opts() -> CreateSessionOptions {
    CreateSessionOptions::default()
}

fn named(name: &str) -> CreateSessionOptions {
    CreateSessionOptions { name: Some(name.into()), ..no_opts() }
}

fn make_session() -> Session {
    let mut repo = InMemorySessionRepo::new();
    Session::new(repo.create(no_opts()))
}

fn list_opts() -> ListSessionOptions {
    ListSessionOptions::default()
}

#[test]
fn append_and_build_context() {
    let mut session = make_session();
    session.append_message(user_msg("hello")).unwrap();
    session.append_message(assistant_msg("hi there")).unwrap();

    let ctx = session.build_context().unwrap();
    assert_eq!(ctx.messages.len(), 2);
    assert!(matches!(ctx.messages[0], AgentMessage::User(_)));
    assert!(matches!(ctx.messages[1], AgentMessage::Assistant(_)));
}

#[test]
fn model_change_tracked_in_context() {
    let mut session = make_session();
    session
        .append(SessionEntryPayload::ModelChange {
            to: "opus-4-7".into(),
            provider: None,
            model_id: None,
        })
        .unwrap();
    let ctx = session.build_context().unwrap();
    assert_eq!(ctx.last_model.as_deref(), Some("opus-4-7"));
}

#[test]
fn navigate_to_switches_branch() {
    let mut session = make_session();
    let id1 = session.append_message(user_msg("first")).unwrap();
    session.append_message(assistant_msg("reply 1")).unwrap();

    session.navigate_to(id1).unwrap();
    session.append_message(assistant_msg("reply 2")).unwrap();

    let ctx = session.build_context().unwrap();
    let last_msg = ctx.messages.last().unwrap();
    if let AgentMessage::Assistant(a) = last_msg {
        let text = a.content.iter().find_map(|c| {
            if let ContentBlock::Text { text } = c {
                Some(text.as_str())
            } else {
                None
            }
        });
        assert_eq!(text, Some("reply 2"));
    } else {
        panic!("expected assistant message");
    }
}

#[test]
fn list_branches_returns_all_leaves() {
    let mut session = make_session();
    let root_id = session.append_message(user_msg("common")).unwrap();

    session.navigate_to(root_id).unwrap();
    session.append_message(assistant_msg("branch A")).unwrap();

    session.navigate_to(root_id).unwrap();
    session.append_message(assistant_msg("branch B")).unwrap();

    let branches = session.list_branches().unwrap();
    assert_eq!(branches.len(), 2);
}

#[test]
fn build_context_after_compaction() {
    let mut session = make_session();
    session.append_message(user_msg("old 1")).unwrap();
    session.append_message(assistant_msg("old reply")).unwrap();
    let kept_id = session.append_message(user_msg("new question")).unwrap();

    let summary = AgentMessage::CompactionSummary(CompactionSummaryMessage {
        summary: "Summary of old messages".into(),
        timestamp: 3_000,
    });
    session
        .append(SessionEntryPayload::Compaction(CompactionEntry {
            summary_message: summary,
            first_kept_entry: kept_id,
            tokens_before: 500,
            from_hook: false,
            details: None,
        }))
        .unwrap();
    session.append_message(assistant_msg("new reply")).unwrap();

    let ctx = session.build_context().unwrap();
    assert_eq!(ctx.messages.len(), 3);
    assert!(matches!(ctx.messages[0], AgentMessage::CompactionSummary(_)));
}

#[test]
fn create_open_delete() {
    let mut repo = InMemorySessionRepo::new();
    let storage = repo.create(no_opts());
    let meta = storage.metadata();
    let id = meta.id.clone();

    repo.open(&id).unwrap();
    repo.delete(&id).unwrap();
    assert!(repo.open(&id).is_err());
}

#[test]
fn list_with_filter_and_order() {
    let mut repo = InMemorySessionRepo::new();
    repo.create(named("alpha"));
    repo.create(named("beta"));

    let all = repo.list(&list_opts());
    assert_eq!(all.len(), 2);

    let filtered = repo.list(&ListSessionOptions { name_contains: Some("alph".into()), ..list_opts() });
    assert_eq!(filtered.len(), 1);
    assert_eq!(filtered[0].name.as_deref(), Some("alpha"));
}

#[test]
fn fork_copies_path() {
    let mut repo = InMemorySessionRepo::new();
    let storage = repo.create(no_opts());
    let mut session = Session::new(storage);

    let id1 = session.append_message(user_msg("msg1")).unwrap();
    session.append_message(user_msg("msg2")).unwrap();
    repo.save(session.into_store());

    let meta_id = repo.list(&list_opts())[0].id.clone();
    let forked = repo.fork(&meta_id, id1, ForkOptions::default()).unwrap();
    let forked_session = Session::new(forked);
    let ctx = forked_session.build_context().unwrap();
    assert_eq!(ctx.messages.len(), 1);
}

// ── Further scenarios ───────────────────────────────────────────────────────

fn meta(id: &str, name: Option<&str>, created: i64, updated: i64) -> SessionMetadata {
    SessionMetadata {
        id: id.into(),
        name: name.map(|s| s.to_string()),
        created_at: created,
        updated_at: updated,
        model: None,
        active_cursor: None,
        parent_session_path: None,
    }
}

#[test]
fn delete_unknown_session_reports_not_found() {
    let mut repo = InMemorySessionRepo::new();
    let err = repo.delete("missing").unwrap_err();
    assert!(matches!(err, SessionError::SessionNotFound(ref s) if s == "missing"));
    let err = repo.open("missing").unwrap_err();
    assert!(matches!(err, SessionError::SessionNotFound(ref s) if s == "missing"));
}

#[test]
fn fork_of_unknown_session_or_entry_fails() {
    let mut repo = InMemorySessionRepo::new();
    let err = repo.fork("nope", llm_harness::types::EntryId(7), ForkOptions::default()).unwrap_err();
    assert!(matches!(err, SessionError::SessionNotFound(_)));
    let s = repo.create(no_opts());
    let id = s.metadata().id.clone();
    let err = repo.fork(&id, llm_harness::types::EntryId(7), ForkOptions::default()).unwrap_err();
    assert!(matches!(err, SessionError::EntryNotFound(llm_harness::types::EntryId(7))));
}

#[test]
fn fork_without_copy_records_parent_session() {
    let mut repo = InMemorySessionRepo::new();
    let mut session = Session::new(repo.create(no_opts()));
    let a = session.append_message(user_msg("a")).unwrap();
    let b = session.append_message(assistant_msg("b")).unwrap();
    let source = session.metadata().id.clone();
    repo.save(session.into_store());
    let forked = repo
        .fork(&source, b, ForkOptions { name: Some("copy".into()), copy_entries: false })
        .unwrap();
    let fm = forked.metadata();
    assert_eq!(fm.parent_session_path.as_deref(), Some(source.as_str()));
    assert_eq!(fm.name.as_deref(), Some("copy"));
    let fs = Session::new(forked);
    let path = fs.read_active_path().unwrap();
    assert_eq!(path.len(), 2);
    assert!(path[0].parent_id.is_none());
    assert_eq!(path[1].parent_id, Some(path[0].id));
    assert_ne!(path[0].id, a);
    assert_eq!(repo.list(&list_opts()).len(), 2);
}

#[test]
fn sort_sessions_orders_by_key_stably() {
    let v = vec![meta("a", None, 1, 10), meta("b", None, 3, 30), meta("c", None, 2, 10)];
    let d: Vec<String> = sort_sessions(v, ListOrder::UpdatedDesc).into_iter().map(|m| m.id).collect();
    assert_eq!(d, vec!["b", "a", "c"]);
    let v = vec![meta("a", None, 1, 10), meta("b", None, 3, 30), meta("c", None, 2, 10)];
    let c: Vec<String> = sort_sessions(v, ListOrder::CreatedAsc).into_iter().map(|m| m.id).collect();
    assert_eq!(c, vec!["a", "c", "b"]);
}

#[test]
fn select_sessions_applies_offset_and_limit() {
    let v = vec![
        meta("a", Some("x1"), 1, 1),
        meta("b", Some("y"), 2, 2),
        meta("c", Some("x2"), 3, 3),
        meta("d", None, 4, 4),
    ];
    let opts = ListSessionOptions {
        limit: Some(1),
        offset: Some(1),
        order: ListOrder::CreatedAsc,
        name_contains: Some("x".into()),
    };
    let r: Vec<String> = select_sessions(v, &opts).into_iter().map(|m| m.id).collect();
    assert_eq!(r, vec!["c"]);
    let opts = ListSessionOptions { offset: Some(9), ..opts };
    assert!(select_sessions(vec![meta("a", None, 1, 1)], &opts).is_empty());
}

#[test]
fn saved_session_replaces_same_id_and_delete_keeps_others() {
    let mut repo = InMemorySessionRepo::new();
    let s1 = repo.create(named("one"));
    let s2 = repo.create(named("two"));
    let id1 = s1.metadata().id.clone();
    let id2 = s2.metadata().id.clone();
    let mut session = Session::new(s1);
    session.append_message(user_msg("x")).unwrap();
    repo.save(session.into_store());
    assert_eq!(repo.list(&list_opts()).len(), 2);
    assert_eq!(repo.open(&id1).unwrap().all_leaves().len(), 1);
    repo.delete(&id1).unwrap();
    assert!(repo.open(&id1).is_err());
    assert_eq!(repo.open(&id2).unwrap().metadata().name.as_deref(), Some("two"));
}

#[test]
fn option_defaults_list_everything_newest_first() {
    let l = ListSessionOptions::default();
    assert_eq!(l.order, ListOrder::UpdatedDesc);
    assert!(l.limit.is_none() && l.offset.is_none() && l.name_contains.is_none());
    assert_eq!(ListOrder::default(), ListOrder::UpdatedDesc);
    let c = CreateSessionOptions::default();
    assert!(c.name.is_none() && c.initial_model.is_none() && c.initial_tools.is_empty());
    let f = ForkOptions::default();
    assert!(f.name.is_none() && f.copy_entries);
    assert!(InMemorySessionRepo::default().list(&ListSessionOptions::default()).is_empty());
}

#[test]
fn store_creates_version_7_entry_ids() {
    let session = make_session();
    let id = session.storage().create_entry_id();
    assert_eq!((id.0 >> 76) & 0xf, 7);
    assert_eq!((id.0 >> 62) & 0x3, 2);
}

#[test]
fn name_filter_ignores_case() {
    let mut repo = InMemorySessionRepo::new();
    repo.create(named("Alpha"));
    repo.create(named("beta"));
    let found = repo.list(&ListSessionOptions { name_contains: Some("alph".into()), ..list_opts() });
    assert_eq!(found.len(), 1);
    assert_eq!(found[0].name.as_deref(), Some("Alpha"));
    let found = repo.list(&ListSessionOptions { name_contains: Some("BET".into()), ..list_opts() });
    assert_eq!(found.len(), 1);
}

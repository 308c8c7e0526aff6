use llm_harness::errors::{AgentError, HarnessError, SessionError, CompactionError, ToolError};
use llm_harness::types::{
    AuthInfo, EntryId, HarnessPhase, NoOpEnv, ShellOutput, StopReason, ThinkingLevel, TokenUsage,
};

#[test]
fn no_op_env_working_dir() {
    let env = NoOpEnv;
    assert_eq!(env.working_dir(), "/tmp");
}

#[test]
fn shell_output_fields() {
    let o = ShellOutput { stdout: "hello".into(), stderr: "".into(), exit_code: 0 };
    assert_eq!(o.exit_code, 0);
}

#[test]
fn tool_error_display() {
    let e = ToolError::InvalidArguments("bad arg".into());
    assert!(e.message().contains("bad arg"));
    let e2 = ToolError::Aborted;
    assert_eq!(e2.message(), "tool aborted");
}

#[test]
fn agent_error_is_clone() {
    let e = AgentError::Provider("rate limit".into());
    let e2 = e.clone();
    assert_eq!(e.message(), e2.message());
}

#[test]
fn harness_error_from_agent_error() {
    let ae = AgentError::Aborted;
    let he: HarnessError = ae.into();
    assert!(he.message().contains("aborted"));
}

#[test]
fn compaction_error_from_session_error() {
    let se = SessionError::EntryNotFound(EntryId::new());
    let ce: CompactionError = se.into();
    assert!(ce.message().contains("entry not found"));
}

#[test]
fn stop_reason_copy() {
    let r = StopReason::ToolUse;
    let r2 = r;
    assert_eq!(r, r2);
}

#[test]
fn harness_phase_not_idle_in_error() {
    let e = HarnessError::NotIdle(HarnessPhase::Turning);
    assert!(e.message().contains("Turning"));
}

#[test]
fn auth_info_fields() {
    let a = AuthInfo { api_key: Some("sk-test".into()), headers: vec![("X-Custom".into(), "val".into())] };
    assert!(a.api_key.is_some());
    assert_eq!(a.headers.len(), 1);
}

#[test]
fn token_usage_total() {
    let u = TokenUsage { input_tokens: 100, output_tokens: 50, cache_read_tokens: 20, cache_creation_tokens: 10 };
    assert_eq!(u.total_tokens(), 180);
}

#[test]
fn thinking_level_copy() {
    let l = ThinkingLevel::High;
    let l2 = l;
    assert!(matches!(l2, ThinkingLevel::High));
}

#[test]
fn entry_ids_are_distinct_and_ordered() {
    let a = EntryId::new();
    let b = EntryId::new();
    assert_ne!(a, b);
    assert!(a.0 < b.0);
}

#[test]
fn entry_id_roundtrip_display_fromstr() {
    let id = EntryId::new();
    let s = id.to_string();
    let id2 = <EntryId as std::str::FromStr>::from_str(&s).unwrap();
    assert_eq!(id, id2);
}

#[test]
fn entry_id_text_is_hyphenated_lowercase_hex() {
    let id = EntryId(0x0123_4567_89ab_cdef_0123_4567_89ab_cdef);
    assert_eq!(id.to_string(), "01234567-89ab-cdef-0123-456789abcdef");
    let parsed: EntryId = "01234567-89AB-CDEF-0123-456789ABCDEF".parse().unwrap();
    assert_eq!(parsed, id);
    assert!("not-an-id".parse::<EntryId>().is_err());
}

#[test]
fn new_entry_ids_are_version_7() {
    let id = EntryId::new();
    assert_eq!((id.0 >> 76) & 0xf, 7);
    assert_eq!((id.0 >> 62) & 0x3, 2);
    let d = EntryId::default();
    assert_eq!((d.0 >> 76) & 0xf, 7);
}

use llm_harness::cli::{
    pad_to, parse_thinking_level, plan_run, repl_action, resolve_flag_value, resolve_prompt,
    resolve_session_dir, resolve_session_id, session_listing, ReplAction, RunInputs, RunPlan,
    DEFAULT_MODEL,
};
use llm_harness::session::SessionMetadata;
use llm_harness::settings::{CompactionSettings, RetrySettings, Settings, SettingsManager};
use llm_harness::types::ThinkingLevel;

fn args(list: &[&str]) -> Vec<String> {
    list.iter().map(|s| s.to_string()).collect()
}

fn inputs(list: &[&str]) -> RunInputs {
    RunInputs {
        args: args(list),
        env_session_dir: None,
        data_dir: Some("/data".to_string()),
        cwd: "/work".to_string(),
        stdin_is_tty: false,
        piped: None,
        api_key: Some("key-1".to_string()),
        env_model: None,
    }
}

#[test]
fn flag_value_follows_the_flag() {
    let a = args(&["prog", "--name", "demo", "--name", "other"]);
    assert_eq!(resolve_flag_value(&a, "--name"), Some("demo".to_string()));
    assert_eq!(resolve_flag_value(&a, "--model"), None);
    let b = args(&["prog", "--name"]);
    assert_eq!(resolve_flag_value(&b, "--name"), None);
    let c = args(&["prog", "--session-id", "abc"]);
    assert_eq!(resolve_session_id(&c), Some("abc".to_string()));
}

#[test]
fn prompt_from_print_flag_positional_or_pipe() {
    let a = args(&["prog", "first", "-p", "printed"]);
    assert_eq!(resolve_prompt(&a, None), Ok("printed".to_string()));
    let b = args(&["prog", "--name", "n", "hello there"]);
    assert_eq!(resolve_prompt(&b, None), Ok("hello there".to_string()));
    let c = args(&["prog"]);
    assert_eq!(resolve_prompt(&c, Some("  piped text \n".to_string())), Ok("piped text".to_string()));
    assert_eq!(
        resolve_prompt(&c, Some("   ".to_string())),
        Err("No prompt provided. Use -p \"prompt\", pass text as argument, or pipe via stdin.".to_string())
    );
}

#[test]
fn thinking_levels_parse_case_insensitively() {
    assert_eq!(parse_thinking_level("OFF"), Some(ThinkingLevel::Off));
    assert_eq!(parse_thinking_level("none"), Some(ThinkingLevel::Off));
    assert_eq!(parse_thinking_level("Low"), Some(ThinkingLevel::Low));
    assert_eq!(parse_thinking_level("med"), Some(ThinkingLevel::Medium));
    assert_eq!(parse_thinking_level("High"), Some(ThinkingLevel::High));
    assert_eq!(parse_thinking_level("Minimal"), Some(ThinkingLevel::Minimal));
    assert_eq!(parse_thinking_level("XHIGH"), Some(ThinkingLevel::XHigh));
    assert_eq!(parse_thinking_level("extreme"), None);
}

#[test]
fn session_dir_falls_back_to_data_dir() {
    let i = inputs(&["prog", "-p", "x"]);
    let s = Settings::default();
    assert_eq!(resolve_session_dir(&i, &s), "/data/coding-agent/sessions");
    let mut j = inputs(&["prog"]);
    j.data_dir = None;
    assert_eq!(resolve_session_dir(&j, &s), "/work/.sessions/coding-agent/sessions");
    let mut k = inputs(&["prog"]);
    k.env_session_dir = Some("/env".to_string());
    assert_eq!(resolve_session_dir(&k, &s), "/env");
}

#[test]
fn plan_lists_and_deletes_sessions() {
    let mgr = SettingsManager::load(Settings::default(), None);
    match plan_run(inputs(&["prog", "--list-sessions"]), &mgr) {
        RunPlan::ListSessions { dir } => assert_eq!(dir, "/data/coding-agent/sessions"),
        other => panic!("unexpected plan {:?}", other),
    }
    match plan_run(inputs(&["prog", "--delete-session", "s1"]), &mgr) {
        RunPlan::DeleteSession { dir, id } => {
            assert_eq!(dir, "/data/coding-agent/sessions");
            assert_eq!(id, "s1");
        }
        other => panic!("unexpected plan {:?}", other),
    }
}

#[test]
fn plan_fails_without_prompt_or_key() {
    let mgr = SettingsManager::load(Settings::default(), None);
    match plan_run(inputs(&["prog"]), &mgr) {
        RunPlan::Fail { message } => assert_eq!(
            message,
            "Error: No prompt provided. Use -p \"prompt\", pass text as argument, or pipe via stdin."
        ),
        other => panic!("unexpected plan {:?}", other),
    }
    let mut i = inputs(&["prog", "-p", "hi"]);
    i.api_key = Some(String::new());
    match plan_run(i, &mgr) {
        RunPlan::Fail { message } => {
            assert_eq!(message, "Error: ANTHROPIC_API_KEY environment variable is not set")
        }
        other => panic!("unexpected plan {:?}", other),
    }
}

#[test]
fn plan_run_takes_settings() {
    let mut global = Settings::default();
    global.default_model = Some("project-model-3".to_string());
    global.default_thinking_level = Some("HIGH".to_string());
    global.compaction = Some(CompactionSettings {
        enabled: Some(false),
        reserve_tokens: Some(100),
        keep_recent_tokens: None,
    });
    global.retry = Some(RetrySettings { enabled: None, max_retries: Some(5), base_delay_ms: None });
    let mgr = SettingsManager::load(global, None);
    match plan_run(inputs(&["prog", "-p", "do it", "--name", "job"]), &mgr) {
        RunPlan::Run(c) => {
            assert!(!c.interactive);
            assert_eq!(c.prompt, Some("do it".to_string()));
            assert_eq!(c.api_key, "key-1");
            assert_eq!(c.model, "project-model-3");
            assert_eq!(c.session_name, Some("job".to_string()));
            assert_eq!(c.resume_id, None);
            assert_eq!(c.thinking_level, Some(ThinkingLevel::High));
            assert!(c.compaction_disabled);
            assert_eq!(c.reserve_tokens, Some(100));
            assert_eq!(c.keep_recent_tokens, None);
            let retry = c.retry.unwrap().unwrap();
            assert_eq!(retry.max_retries, 5);
            assert_eq!(retry.base_delay_ms, 2_000);
        }
        other => panic!("unexpected plan {:?}", other),
    }
}

#[test]
fn plan_run_interactive_uses_default_model() {
    let mgr = SettingsManager::load(Settings::default(), None);
    let mut i = inputs(&["prog", "-i"]);
    i.stdin_is_tty = true;
    match plan_run(i, &mgr) {
        RunPlan::Run(c) => {
            assert!(c.interactive);
            assert_eq!(c.prompt, None);
            assert_eq!(c.model, DEFAULT_MODEL);
            assert!(c.retry.is_none());
        }
        other => panic!("unexpected plan {:?}", other),
    }
}

#[test]
fn pad_to_widens_short_text_only() {
    assert_eq!(pad_to("ab", 5), "ab   ");
    assert_eq!(pad_to("abcdef", 3), "abcdef");
}

fn meta(id: &str, updated_at: i64, name: Option<&str>) -> SessionMetadata {
    SessionMetadata {
        id: id.to_string(),
        name: name.map(|n| n.to_string()),
        created_at: 0,
        updated_at,
        model: None,
        active_cursor: None,
        parent_session_path: None,
    }
}

#[test]
fn listing_is_newest_first() {
    assert_eq!(session_listing(Vec::new()), vec!["No sessions found.".to_string()]);
    let lines = session_listing(vec![meta("old", 0, None), meta("new", 60_000, Some("named"))]);
    assert_eq!(lines.len(), 4);
    assert_eq!(lines[0], format!("{:<38}  {:<16}  NAME", "SESSION ID", "UPDATED"));
    assert_eq!(lines[1], "-".repeat(72));
    assert_eq!(lines[2], format!("{:<38}  {:<16}  named", "new", "1970-01-01 00:01"));
    assert_eq!(lines[3], format!("{:<38}  {:<16}  (unnamed)", "old", "1970-01-01 00:00"));
}

#[test]
fn repl_lines_are_classified() {
    assert!(matches!(repl_action("   "), ReplAction::Skip));
    assert!(matches!(repl_action(" exit "), ReplAction::Quit));
    assert!(matches!(repl_action("quit"), ReplAction::Quit));
    match repl_action("  fix the bug \n") {
        ReplAction::Prompt(t) => assert_eq!(t, "fix the bug"),
        other => panic!("unexpected action {:?}", other),
    }
}

use llm_harness::context::{active_tool_names, load_project_context_files, BuildError};
use llm_harness::convert::{convert_message, convert_messages, LlmMessage};
use llm_harness::errors::AgentError;
use llm_harness::prompt::{
    build_default_body, build_system_prompt, build_system_prompt_on, ContextFile,
    SystemPromptOptions, ToolInfo,
};
use llm_harness::tools::{build_glob_matcher, matches_glob};
use llm_harness::types::{
    AgentMessage, AssistantMessage, BranchSummaryMessage, CompactionSummaryMessage, ContentBlock,
    CustomMessage, ImageSource, StopReason, ToolResultMessage, UserMessage,
};

fn tool(name: &str, desc: &str) -> ToolInfo {
    ToolInfo { name: name.into(), description: desc.into() }
}

fn opts(tools: Vec<ToolInfo>, cwd: &str) -> SystemPromptOptions {
    SystemPromptOptions {
        tools,
        cwd: cwd.into(),
        context_files: vec![],
        skills: vec![],
        custom_prompt: None,
        append: None,
        extra_guidelines: vec![],
    }
}

#[test]
fn prompt_contains_tool_name_and_desc() {
    let o = opts(vec![tool("read", "Read a file"), tool("bash", "Run a command")], "/home/user/project");
    let prompt = build_system_prompt(&o);
    assert!(prompt.contains("read: Read a file"), "got: {prompt}");
    assert!(prompt.contains("bash: Run a command"), "got: {prompt}");
    assert!(prompt.contains("/home/user/project"), "got: {prompt}");
}

#[test]
fn prompt_appends_context_files() {
    let mut o = opts(vec![], "/tmp");
    o.context_files = vec![ContextFile { path: "AGENTS.md".into(), content: "# Rules\nBe careful.".into() }];
    let prompt = build_system_prompt(&o);
    assert!(prompt.contains("<project_instructions path=\"AGENTS.md\">"), "got: {prompt}");
    assert!(prompt.contains("Be careful."), "got: {prompt}");
}

#[test]
fn custom_prompt_replaces_default_body() {
    let mut o = opts(vec![], "/tmp");
    o.custom_prompt = Some("Custom instructions only.".into());
    let prompt = build_system_prompt(&o);
    assert!(prompt.starts_with("Custom instructions only."), "got: {prompt}");
    assert!(!prompt.contains("expert coding assistant"), "got: {prompt}");
}

#[test]
fn prompt_includes_date_and_cwd() {
    let o = opts(vec![], "/workspace");
    let prompt = build_system_prompt(&o);
    assert!(prompt.contains("Current date:"), "got: {prompt}");
    assert!(prompt.contains("Current working directory: /workspace"), "got: {prompt}");
}

#[test]
fn dated_prompt_is_exact() {
    let mut o = opts(vec![tool("bash", "Run")], "C:\\work");
    o.append = Some("Extra.".into());
    o.extra_guidelines = vec!["  Keep it short  ".into(), "".into(), "Use bash for file operations like ls, rg, find".into()];
    let p = build_system_prompt_on(&o, "2024-05-06");
    let expected = "You are an expert coding assistant. You help users by reading files, executing commands, editing code, and writing new files.\n\n\
Available tools:\n- bash: Run\n\nGuidelines:\n\
- Use bash for file operations like ls, rg, find\n\
- Be concise in your responses\n\
- Show file paths clearly when working with files\n\
- Keep it short\n\nExtra.\nCurrent date: 2024-05-06\nCurrent working directory: C:/work";
    assert_eq!(p, expected);
}

#[test]
fn default_body_without_tools() {
    let body = build_default_body(&opts(vec![], "/"));
    assert!(body.contains("Available tools:\n(none)\n"));
    assert!(!body.contains("Use bash"));
}

#[test]
fn include_glob_matches_basename() {
    let matcher = build_glob_matcher("*.rs").unwrap();
    assert!(matches_glob(&matcher, "src/main.rs"));
    assert!(!matches_glob(&matcher, "README.md"));
}

#[test]
fn context_files_outermost_first_and_once() {
    let cf = |p: &str, c: &str| Some(ContextFile { path: p.into(), content: c.into() });
    let found = vec![cf("/a/b/AGENTS.md", "inner"), None, cf("/AGENTS.md", "outer"), cf("/a/b/AGENTS.md", "again")];
    let files = load_project_context_files(found);
    assert_eq!(files.len(), 2);
    assert_eq!(files[0].content, "outer");
    assert_eq!(files[1].content, "inner");
    assert!(load_project_context_files(vec![None, None]).is_empty());
}

#[test]
fn active_tools_respect_request_and_allowlist() {
    let names = active_tool_names(None, None);
    assert_eq!(names, vec!["read", "bash", "edit", "write"]);
    let names = active_tool_names(Some(vec!["ls".into(), "read".into(), "zzz".into()]), None);
    assert_eq!(names, vec!["read", "ls"]);
    let names = active_tool_names(None, Some(vec!["bash".into()]));
    assert_eq!(names, vec!["bash"]);
    assert_eq!(BuildError::MissingClient.message(), "LLM client is required; call .client(...)");
}

fn assistant(blocks: Vec<ContentBlock>) -> AgentMessage {
    AgentMessage::Assistant(AssistantMessage {
        content: blocks,
        stop_reason: Some(StopReason::ToolUse),
        timestamp: 0,
        provider: None,
        api: None,
        model: None,
        usage: None,
        error_message: None,
    })
}

#[test]
fn user_message_converts_text() {
    let m = AgentMessage::User(UserMessage { content: vec![ContentBlock::Text { text: "hello".into() }], timestamp: 0 });
    let out = convert_messages(&vec![m]).unwrap();
    assert_eq!(out.len(), 1);
    assert!(matches!(&out[0], LlmMessage::User(c) if matches!(&c[0], ContentBlock::Text { text } if text == "hello")));
}

#[test]
fn assistant_message_with_tool_use_and_thinking() {
    let m = assistant(vec![
        ContentBlock::Thinking { thinking: "plan".into(), signature: None },
        ContentBlock::Text { text: "doing it".into() },
        ContentBlock::ToolUse { id: "t1".into(), name: "bash".into(), input: "{}".into() },
    ]);
    match convert_message(&m) {
        Some(LlmMessage::Assistant(c)) => assert_eq!(c.len(), 3),
        _ => panic!("expected Assistant message"),
    }
}

#[test]
fn tool_result_converts() {
    let m = AgentMessage::ToolResult(ToolResultMessage {
        tool_use_id: "t1".into(),
        content: vec![
            ContentBlock::Text { text: "done".into() },
            ContentBlock::Thinking { thinking: "x".into(), signature: None },
        ],
        is_error: false,
        timestamp: 0,
    });
    match convert_message(&m) {
        Some(LlmMessage::Tool { invocation_id, content, is_error }) => {
            assert_eq!(invocation_id, "t1");
            assert_eq!(content.len(), 1);
            assert!(!is_error);
        }
        _ => panic!("expected Tool message"),
    }
}

#[test]
fn branch_summary_becomes_user_message() {
    let m = AgentMessage::BranchSummary(BranchSummaryMessage { summary: "previous branch did X".into(), timestamp: 0 });
    match convert_message(&m) {
        Some(LlmMessage::User(c)) => {
            assert!(matches!(&c[0], ContentBlock::Text { text } if text == "<summary>\nprevious branch did X\n</summary>"))
        }
        _ => panic!("expected user message"),
    }
}

#[test]
fn compaction_summary_becomes_user_message() {
    let m = AgentMessage::CompactionSummary(CompactionSummaryMessage { summary: "compact summary".into(), timestamp: 0 });
    match convert_message(&m) {
        Some(LlmMessage::User(c)) => assert!(matches!(&c[0], ContentBlock::Text { text } if text.contains("compact summary"))),
        _ => panic!("expected user message"),
    }
}

#[test]
fn custom_message_without_converter_is_refused() {
    let m = AgentMessage::Custom(CustomMessage { message_type: "artifact".into(), data: "{}".into(), timestamp: 0 });
    let err = convert_messages(&vec![m]).unwrap_err();
    assert!(matches!(err, AgentError::Internal(s) if s.starts_with("custom message has no converter")));
}

#[test]
fn content_block_thinking_skipped_in_request() {
    let m = AgentMessage::User(UserMessage {
        content: vec![
            ContentBlock::Thinking { thinking: "hm".into(), signature: None },
            ContentBlock::Image { source: ImageSource::Base64 { media_type: "image/png".into(), data: "AA".into() } },
        ],
        timestamp: 0,
    });
    match convert_message(&m) {
        Some(LlmMessage::User(c)) => {
            assert_eq!(c.len(), 1);
            assert!(matches!(c[0], ContentBlock::Image { .. }));
        }
        _ => panic!("expected user message"),
    }
}

#[test]
fn load_context_files_empty_dir() {
    let dirs = llm_harness::context::ancestor_dirs("/tmp/empty-project");
    let found: Vec<Option<ContextFile>> = dirs
        .iter()
        .flat_map(|d| llm_harness::context::context_candidates(d))
        .map(|_| None)
        .collect();
    assert!(found.len() >= 2);
    assert!(load_project_context_files(found).is_empty());
}

#[test]
fn load_context_files_returns_outermost_first() {
    let cf = |p: &str, c: &str| Some(ContextFile { path: p.into(), content: c.into() });
    let found = vec![cf("/p/subdir/AGENTS.md", "inner"), cf("/p/AGENTS.md", "outer"), None];
    let files = load_project_context_files(found);
    assert_eq!(files.last().unwrap().content, "inner");
    let outer_idx = files.iter().position(|f| f.content == "outer").unwrap();
    let inner_idx = files.iter().position(|f| f.content == "inner").unwrap();
    assert!(outer_idx < inner_idx);
}

use llm_harness::tools::{
    apply_edit, find_command, find_output, format_entries, format_output, format_size,
    format_text_output, search_output, select_tools, shell_escape, FileInfo, MAX_LINES,
    MAX_OUTPUT_BYTES,
};
use llm_harness::types::ShellOutput;
use llm_harness::errors::ToolError;

#[test]
fn format_output_success() {
    let out = ShellOutput { stdout: "hello\n".into(), stderr: String::new(), exit_code: 0 };
    assert_eq!(format_output(&out), "hello\n");
}

#[test]
fn format_output_nonzero_exit_appends_code() {
    let out = ShellOutput { stdout: "oops\n".into(), stderr: String::new(), exit_code: 1 };
    let text = format_output(&out);
    assert!(text.contains("[Exit code: 1]"), "got: {:?}", text);
}

#[test]
fn format_output_truncates_large_output() {
    let big = "x".repeat(MAX_OUTPUT_BYTES + 100);
    let out = ShellOutput { stdout: big, stderr: String::new(), exit_code: 0 };
    let text = format_output(&out);
    assert!(text.contains("truncated"), "got: {:?}", &text[..100]);
    assert!(text.len() <= MAX_OUTPUT_BYTES + 200);
}

#[test]
fn format_output_combines_stdout_stderr() {
    let out = ShellOutput { stdout: "out".into(), stderr: "err".into(), exit_code: 0 };
    let text = format_output(&out);
    assert!(text.contains("out") && text.contains("err"), "got: {:?}", text);
}

#[test]
fn format_output_exact_truncation_notice() {
    let big = "y".repeat(MAX_OUTPUT_BYTES + 5);
    let out = ShellOutput { stdout: big, stderr: String::new(), exit_code: -2 };
    let text = format_output(&out);
    let expected = format!("{}\n[Output truncated: 5 bytes omitted]\n[Exit code: -2]", "y".repeat(MAX_OUTPUT_BYTES));
    assert_eq!(text, expected);
}

#[test]
fn format_size_bytes() {
    assert_eq!(format_size(512), "512B");
    assert_eq!(format_size(2048), "2.0KB");
}

#[test]
fn format_size_units_and_rounding() {
    assert_eq!(format_size(0), "0B");
    assert_eq!(format_size(1023), "1023B");
    assert_eq!(format_size(1536), "1.5KB");
    assert_eq!(format_size(1280), format!("{:.1}KB", 1280f64 / 1024.0));
    assert_eq!(format_size(3 * 1024 * 1024), "3.0MB");
    assert_eq!(format_size(1024 * 1024 + 52429), format!("{:.1}MB", (1024.0 * 1024.0 + 52429.0) / (1024.0 * 1024.0)));
}

#[test]
fn format_returns_full_content_for_small_file() {
    let content = "line1\nline2\nline3";
    assert_eq!(format_text_output(content, None, None), "line1\nline2\nline3");
}

#[test]
fn format_applies_offset_1indexed() {
    let out = format_text_output("a\nb\nc\nd", Some(2), None);
    assert!(out.starts_with("b\nc\nd"), "got: {:?}", out);
}

#[test]
fn format_applies_limit() {
    let out = format_text_output("a\nb\nc\nd\ne", None, Some(2));
    assert!(out.starts_with("a\nb"), "got: {:?}", out);
    assert!(out.contains("more lines"), "should have continuation notice");
}

#[test]
fn format_applies_limit_exact_notice() {
    let out = format_text_output("a\nb\nc\nd\ne", Some(2), Some(2));
    assert_eq!(out, "b\nc\n\n[2 more lines. Use offset=4 to continue.]");
}

#[test]
fn format_offset_beyond_eof_returns_error_message() {
    let out = format_text_output("a\nb", Some(99), None);
    assert!(out.contains("beyond end of file"), "got: {:?}", out);
    assert_eq!(out, "[Offset 99 is beyond end of file (2 lines total)]");
}

#[test]
fn format_truncates_at_max_lines() {
    let content = (0..MAX_LINES + 10).map(|i| format!("line{}", i)).collect::<Vec<_>>().join("\n");
    let out = format_text_output(&content, None, None);
    assert!(out.contains("more lines"), "should be truncated");
    let line_count = out.lines().count();
    assert!(line_count <= MAX_LINES + 3, "too many lines: {}", line_count);
    assert!(out.ends_with("[10 more lines. Use offset=2001 to continue.]"));
}

#[test]
fn format_truncates_at_max_bytes() {
    let line = "z".repeat(60 * 1024);
    let content = format!("{}\n{}\n{}", line, line, "tail");
    let out = format_text_output(&content, None, None);
    assert_eq!(out, format!("{}\n\n[2 more lines. Use offset=2 to continue.]", line));
}

#[test]
fn shell_escape_quotes() {
    assert_eq!(shell_escape("abc"), "'abc'");
    assert_eq!(shell_escape("it's"), "'it'\\''s'");
}

#[test]
fn find_command_and_output() {
    assert_eq!(find_command("*.rs", "."), "rg --files --color=never --glob='*.rs' '.' 2>/dev/null | sort | head -200");
    assert_eq!(find_output(""), "No files found.");
    assert_eq!(find_output("a.rs\nb.rs\n"), "a.rs\nb.rs");
}

#[test]
fn format_entries_empty() {
    let out = format_entries(&[], "/tmp/empty");
    assert_eq!(out, "/tmp/empty (empty)");
}

#[test]
fn format_entries_sorted_with_sizes() {
    let entries = vec![
        FileInfo { path: "/d/zeta.txt".into(), is_dir: false, size: 10, modified: 0 },
        FileInfo { path: "/d/alpha".into(), is_dir: true, size: 0, modified: 0 },
        FileInfo { path: "/d/beta.rs".into(), is_dir: false, size: 2048, modified: 0 },
    ];
    assert_eq!(format_entries(&entries, "/d"), "alpha/\nbeta.rs (2.0KB)\nzeta.txt (10B)");
}

#[test]
fn edit_replaces_unique_string() {
    let r = apply_edit("f.txt", "hello world", "world", "Rust").unwrap();
    assert_eq!(r, "hello Rust");
}

#[test]
fn edit_fails_when_string_not_found() {
    match apply_edit("f.txt", "hello world", "nonexistent", "x") {
        Err(ToolError::Execution(m)) => assert!(m.contains("not found"), "got: {m}"),
        _ => panic!("expected error"),
    }
}

#[test]
fn edit_fails_when_string_not_unique() {
    match apply_edit("f.txt", "abc abc abc", "abc", "xyz") {
        Err(ToolError::Execution(m)) => assert!(m.contains("3 times"), "got: {m}"),
        _ => panic!("expected error"),
    }
}

#[test]
fn select_tools_preserves_order() {
    let all: Vec<String> = ["read", "bash", "edit", "write", "grep", "find", "ls"].iter().map(|s| s.to_string()).collect();
    let sel = select_tools(&all, &["write".to_string(), "read".to_string()]);
    assert_eq!(sel, vec![3, 0]);
}

#[test]
fn select_tools_skips_unknown_names() {
    let all: Vec<String> = ["read", "bash"].iter().map(|s| s.to_string()).collect();
    let sel = select_tools(&all, &["read".to_string(), "nonexistent".to_string()]);
    assert_eq!(sel, vec![0]);
}

#[test]
fn search_output_joins_or_reports_none() {
    assert_eq!(search_output(&[]), "No matches found.");
    assert_eq!(search_output(&["a:1: x".to_string(), "b:2: y".to_string()]), "a:1: x\nb:2: y");
}

#[test]
fn file_info_is_dir() {
    let fi = FileInfo { path: "/tmp".into(), is_dir: true, size: 0, modified: 0 };
    assert!(fi.is_dir);
}

#[test]
fn edit_error_messages_are_exact() {
    match apply_edit("f.txt", "hello", "bye", "x") {
        Err(ToolError::Execution(m)) => assert_eq!(m, "old_string not found in f.txt"),
        _ => panic!("expected error"),
    }
    match apply_edit("f.txt", "a a a", "a", "b") {
        Err(ToolError::Execution(m)) => assert_eq!(m, "old_string appears 3 times in f.txt; must appear exactly once"),
        _ => panic!("expected error"),
    }
}

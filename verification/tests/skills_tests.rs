use llm_harness::skills::{
    build_skill, expand_brace, format_skill_invocation, format_skills_for_system_prompt,
    invoke_template, is_valid_skill_name, parse_command_args, parse_frontmatter,
    parse_prompt_template, PromptTemplate, Skill,
};

#[test]
fn parse_command_args_basic() {
    let args = parse_command_args("staging \"update API\" --dry-run");
    assert_eq!(args, vec!["staging", "update API", "--dry-run"]);
}

#[test]
fn parse_args_simple_words() {
    assert_eq!(parse_command_args("a b c"), vec!["a", "b", "c"]);
}

#[test]
fn parse_args_double_quotes() {
    let args = parse_command_args(r#"staging "update API endpoint" --dry-run"#);
    assert_eq!(args, vec!["staging", "update API endpoint", "--dry-run"]);
}

#[test]
fn parse_args_single_quotes() {
    let args = parse_command_args("foo 'hello world' bar");
    assert_eq!(args, vec!["foo", "hello world", "bar"]);
}

#[test]
fn parse_args_empty() {
    assert_eq!(parse_command_args(""), Vec::<String>::new());
}

#[test]
fn parse_args_never_yields_empty_arguments() {
    let args = parse_command_args("  a\t\t''  \"\"  b\n");
    assert_eq!(args, vec!["a", "b"]);
}

fn tmpl(content: &str) -> PromptTemplate {
    PromptTemplate { name: "test".into(), description: "".into(), content: content.into(), source: "test.md".into() }
}

#[test]
fn invoke_positional() {
    let t = tmpl("Deploy to $1. Task: $2.");
    let result = invoke_template(&t, &["staging".into(), "fix bugs".into()]);
    assert_eq!(result, "Deploy to staging. Task: fix bugs.");
}

#[test]
fn invoke_dollar_at() {
    let t = tmpl("Args: $@");
    assert_eq!(invoke_template(&t, &["a".into(), "b".into(), "c".into()]), "Args: a b c");
}

#[test]
fn invoke_dollar_arguments() {
    let t = tmpl("All: $ARGUMENTS");
    assert_eq!(invoke_template(&t, &["x".into(), "y".into()]), "All: x y");
}

#[test]
fn invoke_brace_slice_from() {
    let t = tmpl("Rest: ${@:2}");
    assert_eq!(invoke_template(&t, &["a".into(), "b".into(), "c".into()]), "Rest: b c");
}

#[test]
fn invoke_brace_slice_range() {
    let t = tmpl("Slice: ${@:2:2}");
    assert_eq!(invoke_template(&t, &["a".into(), "b".into(), "c".into(), "d".into()]), "Slice: b c");
}

#[test]
fn invoke_missing_arg_is_empty() {
    let t = tmpl("$1 and $3");
    assert_eq!(invoke_template(&t, &["only".into()]), "only and ");
}

#[test]
fn invoke_keeps_unknown_and_trailing_dollar() {
    let t = tmpl("cost $x and ${foo} end $");
    assert_eq!(invoke_template(&t, &["a".into()]), "cost $x and ${foo} end $");
    let t0 = tmpl("$0$ARG");
    assert_eq!(invoke_template(&t0, &["a".into()]), "$ARG");
}

#[test]
fn expand_brace_defaults() {
    let args: Vec<String> = vec!["a".into(), "b".into(), "c".into()];
    assert_eq!(expand_brace("@:x", &args), "a b c");
    assert_eq!(expand_brace("@:2:x", &args), "");
    assert_eq!(expand_brace("@:9", &args), "");
    assert_eq!(expand_brace("@:+2:1", &args), "b");
    assert_eq!(expand_brace("other", &args), "${other}");
}

fn make_skill(name: &str, desc: &str, disable: bool) -> Skill {
    Skill {
        name: name.into(),
        label: None,
        description: desc.into(),
        content: "skill body".into(),
        source: format!("/skills/{name}/SKILL.md"),
        disable_model_invocation: disable,
    }
}

#[test]
fn format_skills_excludes_disabled() {
    let skills = vec![make_skill("public-skill", "Do stuff", false), make_skill("private-skill", "Hidden", true)];
    let prompt = format_skills_for_system_prompt(&skills);
    assert!(prompt.contains("public-skill"));
    assert!(!prompt.contains("private-skill"));
    assert_eq!(
        prompt,
        "<available-skills>\n  <skill name=\"public-skill\" location=\"/skills/public-skill/SKILL.md\">Do stuff</skill>\n</available-skills>"
    );
    assert_eq!(format_skills_for_system_prompt(&[make_skill("x", "y", true)]), "");
}

#[test]
fn format_skill_invocation_wraps_content() {
    let skill = make_skill("deploy", "Deploy the app", false);
    let out = format_skill_invocation(&skill, Some("Use staging only."));
    assert!(out.contains("<skill name=\"deploy\""));
    assert!(out.contains("skill body"));
    assert!(out.contains("Use staging only."));
    assert_eq!(
        out,
        "<skill name=\"deploy\" location=\"/skills/deploy/SKILL.md\">\nskill body\n</skill>\nUse staging only."
    );
}

#[test]
fn skill_names_are_validated() {
    assert!(is_valid_skill_name("my-skill-2"));
    assert!(!is_valid_skill_name(""));
    assert!(!is_valid_skill_name("My-Skill"));
    assert!(!is_valid_skill_name(&"a".repeat(65)));
    assert!(is_valid_skill_name(&"a".repeat(64)));
}

#[test]
fn frontmatter_fields_and_body() {
    let (fields, body) = parse_frontmatter("---\nName: my-skill\n# comment\ndescription: \"Does things\"\nname: other\n---\n\nBody.");
    assert_eq!(fields, vec![("name".to_string(), "other".to_string()), ("description".to_string(), "Does things".to_string())]);
    assert_eq!(body, "Body.");
    let (f2, b2) = parse_frontmatter("no frontmatter");
    assert!(f2.is_empty());
    assert_eq!(b2, "no frontmatter");
}

#[test]
fn load_skill_from_text() {
    let s = build_skill("/s/my-skill/SKILL.md", "---\nname: my-skill\ndescription: Does things\n---\nDo the thing.", "my-skill").unwrap();
    assert_eq!(s.name, "my-skill");
    assert_eq!(s.description, "Does things");
    assert_eq!(s.content.trim(), "Do the thing.");
    assert!(!s.disable_model_invocation);
}

#[test]
fn skill_missing_description_is_refused() {
    let e = build_skill("/s/bad/SKILL.md", "---\nname: bad-skill\n---\nBody.", "bad").unwrap_err();
    assert_eq!(e, "skill 'description' is required and must not be empty");
    let e2 = build_skill("/s/Bad/SKILL.md", "---\ndescription: x\n---\n", "Bad").unwrap_err();
    assert!(e2.starts_with("invalid skill name 'Bad'"));
    let long = format!("---\ndescription: {}\n---\n", "d".repeat(1025));
    let e3 = build_skill("/s/ok/SKILL.md", &long, "ok").unwrap_err();
    assert_eq!(e3, "skill description exceeds 1024 chars (1025 chars)");
}

#[test]
fn template_description_inferred_from_body() {
    let t = parse_prompt_template("hello".into(), "Run the hello task", "/t/hello.md".into());
    assert_eq!(t.description, "Run the hello task");
    let t2 = parse_prompt_template("deploy".into(), "---\ndescription: Deploy to an env\n---\nDeploy to $1.", "/t/deploy.md".into());
    assert_eq!(t2.description, "Deploy to an env");
    assert_eq!(t2.content.trim(), "Deploy to $1.");
    let long = format!("\n\n  {}  \nsecond", "w".repeat(70));
    let t3 = parse_prompt_template("l".into(), &long, "/t/l.md".into());
    assert_eq!(t3.description, format!("{}...", "w".repeat(60)));
}

#[test]
fn skill_description_limit_counts_characters() {
    let content = format!("---\nname: ok\ndescription: {}\n---\nbody", "é".repeat(600));
    let skill = llm_harness::skills::parse_skill_file("/s/ok/SKILL.md", &content, "/s/ok").unwrap();
    assert_eq!(skill.name, "ok");
    assert_eq!(skill.description, "é".repeat(600));
    assert_eq!(skill.content, "body");
    assert!(skill.label.is_none());
    assert!(!skill.disable_model_invocation);
    let content = format!("---\nname: ok\ndescription: {}\n---\nbody", "é".repeat(1025));
    let err = llm_harness::skills::parse_skill_file("/s/ok/SKILL.md", &content, "/s/ok").unwrap_err();
    assert_eq!(err, "skill description exceeds 1024 chars (1025 chars)");
}

#[test]
fn template_description_cut_counts_characters() {
    let line = format!("a{}", "é".repeat(40));
    let t = parse_prompt_template("t".into(), &line, "/d/t.md".into());
    assert_eq!(t.description, line);
    let long = "é".repeat(70);
    let t = parse_prompt_template("t".into(), &long, "/d/t.md".into());
    assert_eq!(t.description, format!("{}...", "é".repeat(60)));
}

#[test]
fn joined_plain_words_split_back() {
    let words = vec!["deploy".to_string(), "prod".to_string(), "--fast".to_string()];
    assert_eq!(parse_command_args(&words.join(" ")), words);
}

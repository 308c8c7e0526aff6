use llm_harness::settings::{Settings, SettingsManager};

fn empty() -> Settings {
    Settings {
        default_provider: None,
        default_model: None,
        default_thinking_level: None,
        compaction: None,
        retry: None,
        max_tokens: None,
        session_dir: None,
        active_tools: None,
    }
}

#[test]
fn settings_merge_project_wins() {
    let base = Settings { default_model: Some("base-model-4".into()), max_tokens: Some(1024), ..Default::default() };
    let project = Settings { default_model: Some("project-model-3".into()), ..Default::default() };
    let merged = base.merge(project);
    assert_eq!(merged.default_model.as_deref(), Some("project-model-3"));
    assert_eq!(merged.max_tokens, Some(1024));
}

#[test]
fn resolved_model_returns_default_when_unset() {
    let mgr = SettingsManager::load(empty(), None);
    assert_eq!(mgr.resolved_model("fallback-model"), "fallback-model");
    assert!(mgr.settings().default_model.is_none());
}

#[test]
fn settings_manager_project_overrides_global() {
    let g = Settings { default_model: Some("global-model".into()), session_dir: Some("/s".into()), ..empty() };
    let p = Settings { default_model: Some("project-model".into()), ..empty() };
    let mgr = SettingsManager::load(g, Some(p));
    assert_eq!(mgr.settings().default_model.as_deref(), Some("project-model"));
    assert_eq!(mgr.settings().session_dir.as_deref(), Some("/s"));
    assert_eq!(mgr.resolved_model("x"), "project-model");
}

#[test]
fn settings_manager_loads_missing_file_as_default() {
    let mgr = SettingsManager::load(Settings::default(), None);
    assert!(mgr.settings().default_model.is_none());
}

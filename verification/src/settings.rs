//! Coding-agent settings: global and project settings merged field by
//! field, the later source winning for every field it sets.
use vstd::prelude::*;
use crate::types::clone_opt_string;

verus! {

/// Compaction settings as written in a settings file.
#[derive(Clone, Copy, PartialEq, Eq, Structural, Debug, Default)]
pub struct CompactionSettings {
    pub enabled: Option<bool>,
    pub reserve_tokens: Option<u32>,
    pub keep_recent_tokens: Option<u32>,
}

/// Retry settings as written in a settings file.
#[derive(Clone, Copy, PartialEq, Eq, Structural, Debug, Default)]
pub struct RetrySettings {
    pub enabled: Option<bool>,
    pub max_retries: Option<u32>,
    pub base_delay_ms: Option<u64>,
}

/// Settings of one source (global or project), or merged.
#[derive(Debug)]
pub struct Settings {
    pub default_provider: Option<String>,
    pub default_model: Option<String>,
    pub default_thinking_level: Option<String>,
    pub compaction: Option<CompactionSettings>,
    pub retry: Option<RetrySettings>,
    pub max_tokens: Option<u32>,
    pub session_dir: Option<String>,
    pub active_tools: Option<Vec<String>>,
}

/// Model of [`Settings`].
pub struct SettingsView {
    pub default_provider: Option<String>,
    pub default_model: Option<String>,
    pub default_thinking_level: Option<String>,
    pub compaction: Option<CompactionSettings>,
    pub retry: Option<RetrySettings>,
    pub max_tokens: Option<u32>,
    pub session_dir: Option<String>,
    pub active_tools: Option<Seq<String>>,
}

impl View for Settings {
    type V = SettingsView;

    open spec fn view(&self) -> SettingsView {
        SettingsView {
            default_provider: self.default_provider,
            default_model: self.default_model,
            default_thinking_level: self.default_thinking_level,
            compaction: self.compaction,
            retry: self.retry,
            max_tokens: self.max_tokens,
            session_dir: self.session_dir,
            active_tools: match self.active_tools {
                Some(v) => Some(v@),
                None => None,
            },
        }
    }
}

impl Default for Settings {
    fn default() -> (s: Self)
        ensures
            s@ == empty_settings(),
    {
        Settings {
            default_provider: None,
            default_model: None,
            default_thinking_level: None,
            compaction: None,
            retry: None,
            max_tokens: None,
            session_dir: None,
            active_tools: None,
        }
    }
}

impl Clone for Settings {
    fn clone(&self) -> (s: Self)
        ensures
            s@ == self@,
    {
        Settings {
            default_provider: clone_opt_string(&self.default_provider),
            default_model: clone_opt_string(&self.default_model),
            default_thinking_level: clone_opt_string(&self.default_thinking_level),
            compaction: self.compaction,
            retry: self.retry,
            max_tokens: self.max_tokens,
            session_dir: clone_opt_string(&self.session_dir),
            active_tools: match &self.active_tools {
                Some(v) => Some(crate::types::clone_strings(v)),
                None => None,
            },
        }
    }
}

/// Settings with no field set.
pub open spec fn empty_settings() -> SettingsView {
    SettingsView {
        default_provider: None,
        default_model: None,
        default_thinking_level: None,
        compaction: None,
        retry: None,
        max_tokens: None,
        session_dir: None,
        active_tools: None,
    }
}

/// `b` if set, else `a`.
pub open spec fn pick<T>(a: Option<T>, b: Option<T>) -> Option<T> {
    match b {
        Some(x) => Some(x),
        None => a,
    }
}

/// `over` laid on `base`: every field set in `over` wins.
pub open spec fn merged(base: SettingsView, over: SettingsView) -> SettingsView {
    SettingsView {
        default_provider: pick(base.default_provider, over.default_provider),
        default_model: pick(base.default_model, over.default_model),
        default_thinking_level: pick(base.default_thinking_level, over.default_thinking_level),
        compaction: pick(base.compaction, over.compaction),
        retry: pick(base.retry, over.retry),
        max_tokens: pick(base.max_tokens, over.max_tokens),
        session_dir: pick(base.session_dir, over.session_dir),
        active_tools: pick(base.active_tools, over.active_tools),
    }
}

impl Settings {
    /// Lays `other` on top of `self`: every field that `other` sets wins.
    pub fn merge(self, other: Settings) -> (r: Settings)
        ensures
            r@ == merged(self@, other@),
    {
        let mut s = self;
        if other.default_provider.is_some() {
            s.default_provider = other.default_provider;
        }
        if other.default_model.is_some() {
            s.default_model = other.default_model;
        }
        if other.default_thinking_level.is_some() {
            s.default_thinking_level = other.default_thinking_level;
        }
        if other.compaction.is_some() {
            s.compaction = other.compaction;
        }
        if other.retry.is_some() {
            s.retry = other.retry;
        }
        if other.max_tokens.is_some() {
            s.max_tokens = other.max_tokens;
        }
        if other.session_dir.is_some() {
            s.session_dir = other.session_dir;
        }
        if other.active_tools.is_some() {
            s.active_tools = other.active_tools;
        }
        s
    }
}

/// Merging settings is associative: layering `c` on (`b` on `a`) is
/// layering (`c` on `b`) on `a`.
pub proof fn law_merge_associative(a: SettingsView, b: SettingsView, c: SettingsView)
    ensures
        merged(merged(a, b), c) == merged(a, merged(b, c)),
{
}

/// Settings with no field set change nothing, on either side of a merge.
pub proof fn law_merge_empty_identity(a: SettingsView)
    ensures
        merged(a, empty_settings()) == a,
        merged(empty_settings(), a) == a,
{
}

/// The merged settings of a global and an optional project source.
pub struct SettingsManager {
    merged: Settings,
}

impl View for SettingsManager {
    type V = SettingsView;

    closed spec fn view(&self) -> SettingsView {
        self.merged@
    }
}

impl SettingsManager {
    /// Merges the global settings with the project's (when there is a
    /// project directory); project settings win.
    pub fn load(global: Settings, project: Option<Settings>) -> (m: SettingsManager)
        ensures
            m@ == merged(
                global@,
                match project {
                    Some(p) => p@,
                    None => empty_settings(),
                },
            ),
    {
        let p = match project {
            Some(p) => p,
            None => Settings::default(),
        };
        SettingsManager { merged: global.merge(p) }
    }

    /// The merged settings.
    pub fn settings(&self) -> (s: &Settings)
        ensures
            s@ == self@,
    {
        &self.merged
    }

    /// The configured default model, else `default`.
    pub fn resolved_model(&self, default: &str) -> (r: String)
        ensures
            r@ == match self@.default_model {
                Some(m) => m@,
                None => default@,
            },
    {
        match &self.merged.default_model {
            Some(m) => m.clone(),
            None => String::from_str(default),
        }
    }
}

} // verus!

//! Command-line decisions of the coding agent: flag values, the prompt to
//! run, thinking levels, and the plan of a run (mode, session directory,
//! model, retry and compaction wiring).
use vstd::prelude::*;
use crate::agent_loop::RetryConfig;
use crate::chars::trim;
use crate::settings::{Settings, SettingsView};
use crate::skills::lowercase;
use crate::types::ThinkingLevel;
use crate::settings::SettingsManager;
use crate::session::{ListOrder, SessionMetadata};
use crate::text::push_str;

verus! {

/// The value following the first occurrence of `flag`.
pub open spec fn flag_value(args: Seq<String>, flag: Seq<char>) -> Option<String>
    decreases args.len(),
{
    if args.len() < 2 {
        None
    } else if args[0]@ == flag {
        Some(args[1])
    } else {
        flag_value(args.drop_first(), flag)
    }
}

/// The value given after `flag`, if any.
pub fn resolve_flag_value(args: &[String], flag: &str) -> (r: Option<String>)
    ensures
        r == flag_value(args@, flag@),
{
    let f = String::from_str(flag);
    let mut i: usize = 0;
    proof {
        assert(args@.subrange(0, args@.len() as int) =~= args@);
    }
    while i < args.len()
        invariant
            i <= args@.len(),
            f@ == flag@,
            flag_value(args@, flag@) == flag_value(args@.subrange(i as int, args@.len() as int), flag@),
        decreases args.len() - i,
    {
        let ghost rest = args@.subrange(i as int, args@.len() as int);
        proof {
            assert(rest.drop_first() =~= args@.subrange(i + 1, args@.len() as int));
        }
        if args[i] == f && i + 1 < args.len() {
            proof {
                assert(rest[0] == args@[i as int] && rest[1] == args@[i + 1]);
            }
            return Some(args[i + 1].clone());
        }
        proof {
            if i + 1 >= args.len() {
                assert(rest.len() < 2);
            }
        }
        i = i + 1;
    }
    None
}

/// The session to resume (`--session-id`).
pub fn resolve_session_id(args: &[String]) -> (r: Option<String>)
    ensures
        r == flag_value(args@, "--session-id"@),
{
    resolve_flag_value(args, "--session-id")
}

/// The value after the first `-p` or `--print` that has one.
pub open spec fn print_value(args: Seq<String>) -> Option<String>
    decreases args.len(),
{
    if args.len() < 2 {
        None
    } else if args[0]@ == "-p"@ || args[0]@ == "--print"@ {
        Some(args[1])
    } else {
        print_value(args.drop_first())
    }
}

/// Flags whose value the positional search skips.
pub open spec fn takes_value(a: Seq<char>) -> bool {
    a == "--session-id"@ || a == "--name"@ || a == "--delete-session"@
}

/// The first positional argument, skipping the values of flags that take
/// one.
pub open spec fn positional(args: Seq<String>, skip: bool) -> Option<String>
    decreases args.len(),
{
    if args.len() == 0 {
        None
    } else if skip {
        positional(args.drop_first(), false)
    } else if takes_value(args[0]@) {
        positional(args.drop_first(), true)
    } else if !(args[0]@.len() > 0 && args[0]@[0] == '-') {
        Some(args[0])
    } else {
        positional(args.drop_first(), false)
    }
}

/// The prompt of a run: `-p`/`--print`, else the first positional
/// argument (after the program name), else the trimmed piped input when
/// not empty.
pub open spec fn prompt_of(args: Seq<String>, piped: Option<String>) -> Option<Seq<char>> {
    match print_value(args) {
        Some(p) => Some(p@),
        None => match positional(if args.len() > 0 { args.drop_first() } else { args }, false) {
            Some(p) => Some(p@),
            None => match piped {
                Some(t) => if trim(t@).len() > 0 {
                    Some(trim(t@))
                } else {
                    None
                },
                None => None,
            },
        },
    }
}

fn is_text(s: &String, lit: &str) -> (b: bool)
    ensures
        b == (s@ == lit@),
{
    *s == String::from_str(lit)
}

/// The prompt given on the command line or piped in (`piped` is what was
/// read from a non-terminal stdin).
pub fn resolve_prompt_opt(args: &[String], piped: Option<String>) -> (r: Option<String>)
    ensures
        match r {
            Some(p) => prompt_of(args@, piped) == Some(p@),
            None => prompt_of(args@, piped) is None,
        },
{
    // -p / --print
    let mut i: usize = 0;
    proof {
        assert(args@.subrange(0, args@.len() as int) =~= args@);
    }
    while i < args.len()
        invariant
            i <= args@.len(),
            print_value(args@) == print_value(args@.subrange(i as int, args@.len() as int)),
        decreases args.len() - i,
    {
        let ghost rest = args@.subrange(i as int, args@.len() as int);
        proof {
            assert(rest.drop_first() =~= args@.subrange(i + 1, args@.len() as int));
        }
        if (is_text(&args[i], "-p") || is_text(&args[i], "--print")) && i + 1 < args.len() {
            proof {
                assert(rest[0] == args@[i as int] && rest[1] == args@[i + 1]);
            }
            return Some(args[i + 1].clone());
        }
        proof {
            if i + 1 >= args.len() {
                assert(rest.len() < 2);
            }
        }
        i = i + 1;
    }
    proof {
        assert(args@.subrange(i as int, args@.len() as int).len() == 0);
    }
    // Positional.
    let ghost tail = if args@.len() > 0 {
        args@.drop_first()
    } else {
        args@
    };
    let mut skip = false;
    let mut k: usize = if args.len() > 0 {
        1
    } else {
        0
    };
    proof {
        assert(args@.subrange(k as int, args@.len() as int) =~= tail);
    }
    while k < args.len()
        invariant
            k <= args@.len(),
            print_value(args@) is None,
            tail == (if args@.len() > 0 {
                args@.drop_first()
            } else {
                args@
            }),
            positional(tail, false) == positional(args@.subrange(k as int, args@.len() as int), skip),
        decreases args.len() - k,
    {
        let ghost rest = args@.subrange(k as int, args@.len() as int);
        proof {
            assert(rest.drop_first() =~= args@.subrange(k + 1, args@.len() as int));
            assert(rest[0] == args@[k as int]);
        }
        if skip {
            skip = false;
        } else if is_text(&args[k], "--session-id") || is_text(&args[k], "--name") || is_text(
            &args[k],
            "--delete-session",
        ) {
            skip = true;
        } else {
            let v = crate::text::str_chars(args[k].as_str());
            if !(v.len() > 0 && v[0] == '-') {
                return Some(args[k].clone());
            }
        }
        k = k + 1;
    }
    proof {
        assert(args@.subrange(k as int, args@.len() as int).len() == 0);
    }
    // Piped input.
    match piped {
        Some(t) => {
            let v = crate::text::str_chars(t.as_str());
            let (lo, hi) = crate::chars::trim_range(&v, 0, v.len());
            proof {
                assert(v@.subrange(0, v@.len() as int) =~= t@);
            }
            if lo < hi {
                Some(crate::skills::chars_range_string(&v, lo, hi))
            } else {
                None
            }
        },
        None => None,
    }
}

/// The prompt of a run, or the message saying there is none.
pub fn resolve_prompt(args: &[String], piped: Option<String>) -> (r: Result<String, String>)
    ensures
        match r {
            Ok(p) => prompt_of(args@, piped) == Some(p@),
            Err(m) => prompt_of(args@, piped) is None && m@
                == "No prompt provided. Use -p \"prompt\", pass text as argument, or pipe via stdin."@,
        },
{
    match resolve_prompt_opt(args, piped) {
        Some(p) => Ok(p),
        None => Err(
            String::from_str(
                "No prompt provided. Use -p \"prompt\", pass text as argument, or pipe via stdin.",
            ),
        ),
    }
}

/// The thinking level named by a (lowercased) setting: `off`/`none`,
/// `minimal`, `low`, `medium`/`med`, `high`, `xhigh`.
pub open spec fn thinking_level_named(l: Seq<char>) -> Option<ThinkingLevel> {
    if l == "off"@ || l == "none"@ {
        Some(ThinkingLevel::Off)
    } else if l == "minimal"@ {
        Some(ThinkingLevel::Minimal)
    } else if l == "xhigh"@ {
        Some(ThinkingLevel::XHigh)
    } else if l == "low"@ {
        Some(ThinkingLevel::Low)
    } else if l == "medium"@ || l == "med"@ {
        Some(ThinkingLevel::Medium)
    } else if l == "high"@ {
        Some(ThinkingLevel::High)
    } else {
        None
    }
}

/// Picks the thinking level of an already lowercased name.
pub fn thinking_level_from_lower(l: &String) -> (r: Option<ThinkingLevel>)
    ensures
        r == thinking_level_named(l@),
{
    if is_text(l, "off") || is_text(l, "none") {
        Some(ThinkingLevel::Off)
    } else if is_text(l, "minimal") {
        Some(ThinkingLevel::Minimal)
    } else if is_text(l, "xhigh") {
        Some(ThinkingLevel::XHigh)
    } else if is_text(l, "low") {
        Some(ThinkingLevel::Low)
    } else if is_text(l, "medium") || is_text(l, "med") {
        Some(ThinkingLevel::Medium)
    } else if is_text(l, "high") {
        Some(ThinkingLevel::High)
    } else {
        None
    }
}

/// Parses a thinking level name, case-insensitively.
pub fn parse_thinking_level(s: &str) -> (r: Option<ThinkingLevel>)
    ensures
        r == thinking_level_named(lowercase(s@)),
{
    let l = crate::skills::lowercase_text(s);
    thinking_level_from_lower(&l)
}

/// Model used when neither the environment nor the settings name one.
pub const DEFAULT_MODEL: &'static str = "sonnet-4-6";

/// What one run of the command line does.
#[derive(Debug)]
pub enum RunPlan {
    /// List the sessions stored in a directory.
    ListSessions { dir: String },
    /// Delete one stored session.
    DeleteSession { dir: String, id: String },
    /// Stop with a message and exit code 1.
    Fail { message: String },
    /// Run the agent.
    Run(RunConfig),
}

/// The configuration of an agent run.
#[derive(Debug)]
pub struct RunConfig {
    pub session_dir: String,
    pub interactive: bool,
    pub prompt: Option<String>,
    pub api_key: String,
    pub model: String,
    pub resume_id: Option<String>,
    pub session_name: Option<String>,
    pub max_tokens: Option<u32>,
    pub thinking_level: Option<ThinkingLevel>,
    /// Auto-compaction is switched off.
    pub compaction_disabled: bool,
    pub reserve_tokens: Option<u32>,
    pub keep_recent_tokens: Option<u32>,
    /// `None`: keep the default; `Some(None)`: retries off; `Some(Some(c))`.
    pub retry: Option<Option<RetryConfig>>,
}

/// What the environment gives a run.
pub struct RunInputs {
    pub args: Vec<String>,
    /// `CODING_AGENT_SESSION_DIR`.
    pub env_session_dir: Option<String>,
    /// The platform data directory.
    pub data_dir: Option<String>,
    pub cwd: String,
    pub stdin_is_tty: bool,
    /// Text read from a non-terminal stdin.
    pub piped: Option<String>,
    /// The API key from the environment.
    pub api_key: Option<String>,
    /// `CODING_AGENT_MODEL`.
    pub env_model: Option<String>,
}

/// Some argument equals `a`.
pub open spec fn has_arg(args: Seq<String>, a: Seq<char>) -> bool {
    exists|i: int| 0 <= i < args.len() && (#[trigger] args[i])@ == a
}

/// A set, non-empty text.
pub open spec fn non_empty(o: Option<String>) -> Option<Seq<char>> {
    match o {
        Some(s) => if s@.len() > 0 {
            Some(s@)
        } else {
            None
        },
        None => None,
    }
}

/// The session directory: the environment's, else the settings', else
/// `<data dir or cwd/.sessions>/coding-agent/sessions`.
pub open spec fn session_dir_of(i: RunInputs, s: SettingsView) -> Seq<char> {
    match non_empty(i.env_session_dir) {
        Some(d) => d,
        None => match s.session_dir {
            Some(d) => d@,
            None => crate::tools::path_join(
                crate::tools::path_join(
                    match i.data_dir {
                        Some(d) => d@,
                        None => crate::tools::path_join(i.cwd@, ".sessions"@),
                    },
                    "coding-agent"@,
                ),
                "sessions"@,
            ),
        },
    }
}

fn arg_present(args: &[String], a: &str) -> (b: bool)
    ensures
        b == has_arg(args@, a@),
{
    let t = String::from_str(a);
    let mut i: usize = 0;
    while i < args.len()
        invariant
            i <= args@.len(),
            t@ == a@,
            forall|k: int| 0 <= k < i ==> (#[trigger] args@[k])@ != a@,
        decreases args.len() - i,
    {
        if args[i] == t {
            return true;
        }
        i = i + 1;
    }
    false
}

fn non_empty_text(o: &Option<String>) -> (r: Option<String>)
    ensures
        match r {
            Some(s) => non_empty(*o) == Some(s@),
            None => non_empty(*o) is None,
        },
{
    match o {
        Some(s) => if s.as_str().is_empty() {
            None
        } else {
            Some(s.clone())
        },
        None => None,
    }
}

/// The session directory of a run.
pub fn resolve_session_dir(inputs: &RunInputs, settings: &Settings) -> (d: String)
    ensures
        d@ == session_dir_of(*inputs, settings@),
{
    match non_empty_text(&inputs.env_session_dir) {
        Some(d) => d,
        None => match &settings.session_dir {
            Some(d) => d.clone(),
            None => {
                let base = match &inputs.data_dir {
                    Some(d) => d.clone(),
                    None => crate::tools::resolve_join(inputs.cwd.as_str(), ".sessions"),
                };
                let a = crate::tools::resolve_join(base.as_str(), "coding-agent");
                crate::tools::resolve_join(a.as_str(), "sessions")
            },
        },
    }
}

/// The run is interactive: asked for, or stdin is a terminal and no prompt
/// was given.
pub open spec fn interactive_of(i: RunInputs) -> bool {
    has_arg(i.args@, "--interactive"@) || has_arg(i.args@, "-i"@) || (i.stdin_is_tty
        && prompt_of(i.args@, i.piped) is None)
}

/// The plan of a run.
pub open spec fn plan_ok(i: RunInputs, s: SettingsView, p: RunPlan) -> bool {
    let dir = session_dir_of(i, s);
    if has_arg(i.args@, "--list-sessions"@) {
        p matches RunPlan::ListSessions { dir: d } && d@ == dir
    } else if flag_value(i.args@, "--delete-session"@) is Some {
        p matches RunPlan::DeleteSession { dir: d, id } && d@ == dir && id
            == flag_value(i.args@, "--delete-session"@)->Some_0
    } else if !interactive_of(i) && prompt_of(i.args@, i.piped) is None {
        p matches RunPlan::Fail { message } && message@ == "Error: No prompt provided. Use -p \"prompt\", pass text as argument, or pipe via stdin."@
    } else if non_empty(i.api_key) is None {
        p matches RunPlan::Fail { message } && message@
            == "Error: ANTHROPIC_API_KEY environment variable is not set"@
    } else {
        p matches RunPlan::Run(c) && {
            &&& c.session_dir@ == dir
            &&& c.interactive == interactive_of(i)
            &&& (if c.interactive {
                c.prompt is None
            } else {
                c.prompt matches Some(x) && prompt_of(i.args@, i.piped) == Some(x@)
            })
            &&& c.api_key@ == non_empty(i.api_key)->Some_0
            &&& c.model@ == match non_empty(i.env_model) {
                Some(m) => m,
                None => match s.default_model {
                    Some(m) => m@,
                    None => DEFAULT_MODEL@,
                },
            }
            &&& c.resume_id == flag_value(i.args@, "--session-id"@)
            &&& c.session_name == flag_value(i.args@, "--name"@)
            &&& c.max_tokens == s.max_tokens
            &&& c.thinking_level == match s.default_thinking_level {
                Some(l) => thinking_level_named(lowercase(l@)),
                None => None,
            }
            &&& c.compaction_disabled == (s.compaction matches Some(cs) && cs.enabled == Some(
                false,
            ))
            &&& c.reserve_tokens == match s.compaction {
                Some(cs) => cs.reserve_tokens,
                None => None,
            }
            &&& c.keep_recent_tokens == match s.compaction {
                Some(cs) => cs.keep_recent_tokens,
                None => None,
            }
            &&& c.retry == match s.retry {
                None => None,
                Some(rs) => if rs.enabled == Some(false) {
                    Some(None)
                } else {
                    Some(
                        Some(
                            RetryConfig {
                                max_retries: match rs.max_retries {
                                    Some(m) => m,
                                    None => 3,
                                },
                                base_delay_ms: match rs.base_delay_ms {
                                    Some(b) => b,
                                    None => 2_000,
                                },
                            },
                        ),
                    )
                },
            }
        }
    }
}

/// Decides what a run of the command line does, from its arguments, its
/// environment and the merged settings.
pub fn plan_run(inputs: RunInputs, mgr: &SettingsManager) -> (p: RunPlan)
    ensures
        plan_ok(inputs, mgr@, p),
{
    let settings = mgr.settings();
    let dir = resolve_session_dir(&inputs, settings);
    let args = inputs.args.as_slice();
    if arg_present(args, "--list-sessions") {
        return RunPlan::ListSessions { dir };
    }
    if let Some(id) = resolve_flag_value(args, "--delete-session") {
        return RunPlan::DeleteSession { dir, id };
    }
    let found = resolve_prompt_opt(args, clone_opt(&inputs.piped));
    let interactive = arg_present(args, "--interactive") || arg_present(args, "-i") || (
    inputs.stdin_is_tty && found.is_none());
    let prompt = if interactive {
        None
    } else {
        match found {
            Some(p) => Some(p),
            None => {
                return RunPlan::Fail {
                    message: String::from_str(
                        "Error: No prompt provided. Use -p \"prompt\", pass text as argument, or pipe via stdin.",
                    ),
                };
            },
        }
    };
    let api_key = match non_empty_text(&inputs.api_key) {
        Some(k) => k,
        None => {
            return RunPlan::Fail {
                message: String::from_str("Error: ANTHROPIC_API_KEY environment variable is not set"),
            };
        },
    };
    let model = match non_empty_text(&inputs.env_model) {
        Some(m) => m,
        None => mgr.resolved_model(DEFAULT_MODEL),
    };
    let thinking_level = match &settings.default_thinking_level {
        Some(l) => parse_thinking_level(l.as_str()),
        None => None,
    };
    let (compaction_disabled, reserve_tokens, keep_recent_tokens) = match settings.compaction {
        Some(cs) => (cs.enabled == Some(false), cs.reserve_tokens, cs.keep_recent_tokens),
        None => (false, None, None),
    };
    let retry = match settings.retry {
        None => None,
        Some(rs) => if rs.enabled == Some(false) {
            Some(None)
        } else {
            let max_retries = match rs.max_retries {
                Some(m) => m,
                None => 3,
            };
            let base_delay_ms = match rs.base_delay_ms {
                Some(b) => b,
                None => 2_000,
            };
            Some(Some(RetryConfig::new(max_retries, base_delay_ms)))
        },
    };
    RunPlan::Run(
        RunConfig {
            session_dir: dir,
            interactive,
            prompt,
            api_key,
            model,
            resume_id: resolve_session_id(args),
            session_name: resolve_flag_value(args, "--name"),
            max_tokens: settings.max_tokens,
            thinking_level,
            compaction_disabled,
            reserve_tokens,
            keep_recent_tokens,
            retry,
        },
    )
}

fn clone_opt(o: &Option<String>) -> (r: Option<String>)
    ensures
        r == *o,
{
    crate::types::clone_opt_string(o)
}

// ── Session listing ──────────────────────────────────────────────────────────

/// `s` padded with spaces to `w` characters.
pub open spec fn pad_right(s: Seq<char>, w: nat) -> Seq<char> {
    if s.len() >= w {
        s
    } else {
        s + Seq::new((w - s.len()) as nat, |i: int| ' ')
    }
}

/// Pads a text with spaces to a width in characters.
pub fn pad_to(s: &str, w: usize) -> (r: String)
    ensures
        r@ == pad_right(s@, w as nat),
{
    let v = crate::text::str_chars(s);
    let mut out = String::from_str(s);
    let mut n = v.len();
    proof {
        assert(out@ =~= s@ + Seq::new(0, |i: int| ' '));
    }
    while n < w
        invariant
            v@.len() <= n <= w || (n == v@.len() && n >= w),
            n >= v@.len(),
            out@ == s@ + Seq::new((n - v@.len()) as nat, |i: int| ' '),
            v@ == s@,
        decreases w - n,
    {
        crate::text::push_char(&mut out, ' ');
        proof {
            assert(out@ =~= s@ + Seq::new((n + 1 - v@.len()) as nat, |i: int| ' '));
        }
        n = n + 1;
    }
    proof {
        if v@.len() >= w {
            assert(out@ =~= s@);
        }
    }
    out
}

/// The time of a session update as `YYYY-MM-DD HH:MM` (UTC).
pub uninterp spec fn minute_text(millis: i64) -> Seq<char>;

/// Formats milliseconds since the epoch as `YYYY-MM-DD HH:MM` with
/// `chrono` (UTC); the result is named, not described.
#[verifier::external_body]
fn format_minutes(millis: i64) -> (r: String)
    ensures
        r@ == minute_text(millis),
{
    match chrono::DateTime::from_timestamp_millis(millis) {
        Some(t) => t.format("%Y-%m-%d %H:%M").to_string(),
        None => String::new(),
    }
}

/// One listing line: id padded to 38, time padded to 16, name.
pub open spec fn listing_line(m: SessionMetadata) -> Seq<char> {
    pad_right(m.id@, 38) + "  "@ + pad_right(minute_text(m.updated_at), 16) + "  "@ + match m.name {
        Some(n) => n@,
        None => "(unnamed)"@,
    }
}

/// Lines of the session listing, most recently updated first; a single
/// line when there are none.
pub fn session_listing(sessions: Vec<SessionMetadata>) -> (lines: Vec<String>)
    ensures
        sessions@.len() == 0 ==> lines@.len() == 1 && lines@[0]@ == "No sessions found."@,
        sessions@.len() > 0 ==> lines@.len() == sessions@.len() + 2 && lines@[0]@ == pad_right(
            "SESSION ID"@,
            38,
        ) + "  "@ + pad_right("UPDATED"@, 16) + "  NAME"@ && lines@[1]@ == Seq::new(
            72,
            |i: int| '-',
        ) && exists|order: Seq<SessionMetadata>|
            order.to_multiset() == sessions@.to_multiset() && crate::repo::sorted_by(
                order,
                ListOrder::UpdatedDesc,
            ) && (exists|idx: Seq<int>|
                crate::repo::stable_arrangement(order, sessions@, ListOrder::UpdatedDesc, idx))
                && forall|k: int|
                0 <= k < order.len() ==> (#[trigger] lines@[k + 2])@ == listing_line(order[k]),
{
    let mut out: Vec<String> = Vec::new();
    if sessions.len() == 0 {
        out.push(String::from_str("No sessions found."));
        return out;
    }
    let sorted = crate::repo::sort_sessions(sessions, ListOrder::UpdatedDesc);
    let h1 = pad_to("SESSION ID", 38);
    let h2 = pad_to("UPDATED", 16);
    let mut header = h1;
    push_str(&mut header, "  ");
    push_str(&mut header, h2.as_str());
    push_str(&mut header, "  NAME");
    out.push(header);
    let mut dashes = String::new();
    let mut k: usize = 0;
    while k < 72
        invariant
            k <= 72,
            dashes@ == Seq::new(k as nat, |i: int| '-'),
        decreases 72 - k,
    {
        crate::text::push_char(&mut dashes, '-');
        proof {
            assert(dashes@ =~= Seq::new((k + 1) as nat, |i: int| '-'));
        }
        k = k + 1;
    }
    out.push(dashes);
    let mut i: usize = 0;
    while i < sorted.len()
        invariant
            i <= sorted@.len(),
            out@.len() == i + 2,
            out@[0]@ == pad_right("SESSION ID"@, 38) + "  "@ + pad_right("UPDATED"@, 16) + "  NAME"@,
            out@[1]@ == Seq::new(72, |i: int| '-'),
            forall|t: int| 0 <= t < i ==> (#[trigger] out@[t + 2])@ == listing_line(sorted@[t]),
        decreases sorted.len() - i,
    {
        let m = &sorted[i];
        let mut line = pad_to(m.id.as_str(), 38);
        push_str(&mut line, "  ");
        let t = format_minutes(m.updated_at);
        let tp = pad_to(t.as_str(), 16);
        push_str(&mut line, tp.as_str());
        push_str(&mut line, "  ");
        match &m.name {
            Some(n) => push_str(&mut line, n.as_str()),
            None => push_str(&mut line, "(unnamed)"),
        }
        let ghost lv = line@;
        out.push(line);
        proof {
            assert(lv == listing_line(sorted@[i as int]));
            assert(out@[i + 2]@ == lv);
        }
        i = i + 1;
    }
    proof {
        broadcast use vstd::seq_lib::group_to_multiset_ensures;

        assert(sorted@.to_multiset() == sessions@.to_multiset());
        assert(sorted@.to_multiset().len() == sessions@.to_multiset().len());
        assert(sorted@.len() == sessions@.len());
        assert(crate::repo::sorted_by(sorted@, ListOrder::UpdatedDesc));
        assert(forall|k: int|
            0 <= k < sorted@.len() ==> (#[trigger] out@[k + 2])@ == listing_line(sorted@[k]));
    }
    out
}

// ── Interactive input ────────────────────────────────────────────────────────

/// What one line typed at the interactive prompt asks for.
#[derive(Debug)]
pub enum ReplAction {
    /// A blank line: ask again.
    Skip,
    /// `exit` or `quit`: leave.
    Quit,
    /// Send the (trimmed) text as a prompt.
    Prompt(String),
}

/// Decides what a typed line asks for: blank lines are skipped, `exit` and
/// `quit` leave, anything else (trimmed) is a prompt.
pub fn repl_action(line: &str) -> (r: ReplAction)
    ensures
        trim(line@).len() == 0 ==> r is Skip,
        (trim(line@) == "exit"@ || trim(line@) == "quit"@) ==> r is Quit,
        trim(line@).len() > 0 && trim(line@) != "exit"@ && trim(line@) != "quit"@ ==> (
        r matches ReplAction::Prompt(t) && t@ == trim(line@)),
{
    proof {
        reveal_strlit("exit");
        reveal_strlit("quit");
    }
    let t = crate::prompt::trimmed(line);
    let n = crate::text::str_chars(t.as_str()).len();
    if n == 0 {
        return ReplAction::Skip;
    }
    let exit = String::from_str("exit");
    let quit = String::from_str("quit");
    if t == exit || t == quit {
        return ReplAction::Quit;
    }
    ReplAction::Prompt(t)
}

} // verus!

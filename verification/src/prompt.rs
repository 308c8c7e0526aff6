//! The coding agent's system prompt: the default body (tools and
//! guidelines), a custom body, appended text, project context files, the
//! skills section, the date and the working directory; and the collection
//! of project context files found from the working directory upwards.
use vstd::prelude::*;
use crate::chars::{join, join_strings, trim, trim_range};
use crate::skills::{format_skills_for_system_prompt, skills_prompt, Skill};
use crate::text::{push_char, push_str, str_chars};

verus! {

/// A project context file shown in the prompt.
#[derive(Debug)]
pub struct ContextFile {
    pub path: String,
    pub content: String,
}

/// What the prompt says of one tool.
#[derive(Debug)]
pub struct ToolInfo {
    pub name: String,
    pub description: String,
}

/// Options of the system prompt.
#[derive(Debug)]
pub struct SystemPromptOptions {
    /// Active tools, in the order they are listed.
    pub tools: Vec<ToolInfo>,
    /// Working directory.
    pub cwd: String,
    pub context_files: Vec<ContextFile>,
    pub skills: Vec<Skill>,
    /// Replaces the default body.
    pub custom_prompt: Option<String>,
    /// Appended after the body.
    pub append: Option<String>,
    /// Extra guideline bullets after the built-in ones.
    pub extra_guidelines: Vec<String>,
}

/// One tool's line.
pub open spec fn tool_line(t: ToolInfo) -> Seq<char> {
    "- "@ + t.name@ + ": "@ + t.description@
}

/// The tool list, `(none)` when there are no tools.
pub open spec fn tool_list_text(ts: Seq<ToolInfo>) -> Seq<char> {
    if ts.len() == 0 {
        "(none)"@
    } else {
        join(ts.map_values(|t: ToolInfo| tool_line(t)), "\n"@)
    }
}

/// A tool with the given name is listed.
pub open spec fn has_tool(ts: Seq<ToolInfo>, n: Seq<char>) -> bool {
    exists|i: int| 0 <= i < ts.len() && (#[trigger] ts[i]).name@ == n
}

/// The guideline given when bash is the only way to explore files.
pub open spec fn bash_guideline(ts: Seq<ToolInfo>) -> Seq<Seq<char>> {
    if has_tool(ts, "bash"@) && !has_tool(ts, "grep"@) && !has_tool(ts, "find"@) && !has_tool(
        ts,
        "ls"@,
    ) {
        seq!["Use bash for file operations like ls, rg, find"@]
    } else {
        seq![]
    }
}

/// The extra guidelines, trimmed, without empty ones and without those
/// already among `builtin`.
pub open spec fn kept_guidelines(extras: Seq<Seq<char>>, builtin: Seq<Seq<char>>) -> Seq<Seq<char>>
    decreases extras.len(),
{
    if extras.len() == 0 {
        seq![]
    } else {
        let r = kept_guidelines(extras.drop_last(), builtin);
        let g = trim(extras.last());
        if g.len() > 0 && !builtin.contains(g) {
            r.push(g)
        } else {
            r
        }
    }
}

/// Every guideline, in order.
pub open spec fn all_guidelines(ts: Seq<ToolInfo>, extras: Seq<Seq<char>>) -> Seq<Seq<char>> {
    bash_guideline(ts) + seq![
        "Be concise in your responses"@,
        "Show file paths clearly when working with files"@,
    ] + kept_guidelines(extras, bash_guideline(ts))
}

/// The default body of the prompt.
pub open spec fn default_body(ts: Seq<ToolInfo>, extras: Seq<Seq<char>>) -> Seq<char> {
    "You are an expert coding assistant. You help users by reading files, executing commands, editing code, and writing new files.\n\nAvailable tools:\n"@
        + tool_list_text(ts) + "\n\nGuidelines:\n"@ + join(
        all_guidelines(ts, extras).map_values(|g: Seq<char>| "- "@ + g),
        "\n"@,
    )
}

/// One context file's block.
pub open spec fn context_entry(c: ContextFile) -> Seq<char> {
    "<project_instructions path=\""@ + c.path@ + "\">\n"@ + c.content@
        + "\n</project_instructions>\n\n"@
}

/// The context files' blocks, in order.
pub open spec fn context_entries(cs: Seq<ContextFile>) -> Seq<char>
    decreases cs.len(),
{
    if cs.len() == 0 {
        seq![]
    } else {
        context_entries(cs.drop_last()) + context_entry(cs.last())
    }
}

/// The project-context section (empty without context files).
pub open spec fn context_section(cs: Seq<ContextFile>) -> Seq<char> {
    if cs.len() == 0 {
        seq![]
    } else {
        "\n\n<project_context>\n\n"@ + "Project-specific instructions and guidelines:\n\n"@
            + context_entries(cs) + "</project_context>"@
    }
}

/// Backslashes turned into slashes.
pub open spec fn slashes(s: Seq<char>) -> Seq<char> {
    s.map_values(
        |c: char|
            if c == '\\' {
                '/'
            } else {
                c
            },
    )
}

/// The whole system prompt on a given date.
pub open spec fn system_prompt_text(o: SystemPromptOptions, date: Seq<char>) -> Seq<char> {
    let body = match o.custom_prompt {
        Some(c) => c@,
        None => default_body(o.tools@, o.extra_guidelines@.map_values(|g: String| g@)),
    };
    let appended = match o.append {
        Some(a) => "\n\n"@ + a@,
        None => seq![],
    };
    let skills = if has_tool(o.tools@, "read"@) && o.skills@.len() > 0 {
        skills_prompt(o.skills@.map_values(|k: Skill| k@))
    } else {
        seq![]
    };
    body + appended + context_section(o.context_files@) + skills + "\nCurrent date: "@ + date
        + "\nCurrent working directory: "@ + slashes(o.cwd@)
}

fn tool_listed(ts: &Vec<ToolInfo>, n: &str) -> (b: bool)
    ensures
        b == has_tool(ts@, n@),
{
    let t = String::from_str(n);
    let mut i: usize = 0;
    while i < ts.len()
        invariant
            i <= ts@.len(),
            t@ == n@,
            forall|k: int| 0 <= k < i ==> (#[trigger] ts@[k]).name@ != n@,
        decreases ts.len() - i,
    {
        if ts[i].name == t {
            return true;
        }
        i = i + 1;
    }
    false
}

/// The text without surrounding white space.
pub fn trimmed(s: &str) -> (r: String)
    ensures
        r@ == trim(s@),
{
    let v = str_chars(s);
    let (lo, hi) = trim_range(&v, 0, v.len());
    proof {
        assert(v@.subrange(0, v@.len() as int) =~= v@);
    }
    let mut out = String::new();
    let mut i = lo;
    while i < hi
        invariant
            lo <= i <= hi <= v@.len(),
            out@ == v@.subrange(lo as int, i as int),
        decreases hi - i,
    {
        push_char(&mut out, v[i]);
        proof {
            assert(v@.subrange(lo as int, i + 1) =~= v@.subrange(lo as int, i as int).push(
                v@[i as int],
            ));
        }
        i = i + 1;
    }
    out
}

fn text_listed(v: &Vec<String>, s: &String) -> (b: bool)
    ensures
        b == v@.map_values(|g: String| g@).contains(s@),
{
    let ghost vv = v@.map_values(|g: String| g@);
    let mut i: usize = 0;
    while i < v.len()
        invariant
            i <= v@.len(),
            vv == v@.map_values(|g: String| g@),
            forall|k: int| 0 <= k < i ==> vv[k] != s@,
        decreases v.len() - i,
    {
        if v[i] == *s {
            assert(vv[i as int] == s@);
            return true;
        }
        i = i + 1;
    }
    false
}

/// The default body: the tool list and the guidelines.
pub fn build_default_body(opts: &SystemPromptOptions) -> (r: String)
    ensures
        r@ == default_body(opts.tools@, opts.extra_guidelines@.map_values(|g: String| g@)),
{
    let ghost extras = opts.extra_guidelines@.map_values(|g: String| g@);
    let tool_list = if opts.tools.len() == 0 {
        String::from_str("(none)")
    } else {
        let mut lines: Vec<String> = Vec::new();
        let mut i: usize = 0;
        while i < opts.tools.len()
            invariant
                i <= opts.tools@.len(),
                lines@.map_values(|s: String| s@) == opts.tools@.map_values(
                    |t: ToolInfo| tool_line(t),
                ).subrange(0, i as int),
            decreases opts.tools.len() - i,
        {
            let mut l = String::from_str("- ");
            push_str(&mut l, opts.tools[i].name.as_str());
            push_str(&mut l, ": ");
            push_str(&mut l, opts.tools[i].description.as_str());
            let ghost before = lines@.map_values(|s: String| s@);
            let ghost lv = l@;
            lines.push(l);
            proof {
                assert(lv == tool_line(opts.tools@[i as int]));
                assert(lines@.map_values(|s: String| s@) =~= before.push(lv));
                assert(opts.tools@.map_values(|t: ToolInfo| tool_line(t)).subrange(0, i + 1)
                    =~= opts.tools@.map_values(|t: ToolInfo| tool_line(t)).subrange(
                    0,
                    i as int,
                ).push(lv));
            }
            i = i + 1;
        }
        proof {
            assert(opts.tools@.map_values(|t: ToolInfo| tool_line(t)).subrange(
                0,
                i as int,
            ) =~= opts.tools@.map_values(|t: ToolInfo| tool_line(t)));
        }
        join_strings(lines.as_slice(), "\n")
    };
    let mut builtin: Vec<String> = Vec::new();
    if tool_listed(&opts.tools, "bash") && !tool_listed(&opts.tools, "grep") && !tool_listed(
        &opts.tools,
        "find",
    ) && !tool_listed(&opts.tools, "ls") {
        builtin.push(String::from_str("Use bash for file operations like ls, rg, find"));
    }
    proof {
        assert(builtin@.map_values(|g: String| g@) =~= bash_guideline(opts.tools@));
    }
    let mut kept: Vec<String> = Vec::new();
    let mut j: usize = 0;
    while j < opts.extra_guidelines.len()
        invariant
            j <= opts.extra_guidelines@.len(),
            extras == opts.extra_guidelines@.map_values(|g: String| g@),
            builtin@.map_values(|g: String| g@) == bash_guideline(opts.tools@),
            kept@.map_values(|g: String| g@) == kept_guidelines(
                extras.subrange(0, j as int),
                bash_guideline(opts.tools@),
            ),
        decreases opts.extra_guidelines.len() - j,
    {
        let g = trimmed(opts.extra_guidelines[j].as_str());
        proof {
            assert(extras.subrange(0, j + 1).drop_last() =~= extras.subrange(0, j as int));
            assert(extras.subrange(0, j + 1).last() == opts.extra_guidelines@[j as int]@);
        }
        let gchars = str_chars(g.as_str());
        if gchars.len() > 0 && !text_listed(&builtin, &g) {
            let ghost before = kept@.map_values(|s: String| s@);
            let ghost gv = g@;
            kept.push(g);
            proof {
                assert(kept@.map_values(|s: String| s@) =~= before.push(gv));
            }
        }
        j = j + 1;
    }
    proof {
        assert(extras.subrange(0, j as int) =~= extras);
    }
    let mut all: Vec<String> = Vec::new();
    let mut k: usize = 0;
    while k < builtin.len()
        invariant
            k <= builtin@.len(),
            all@.map_values(|s: String| s@) == builtin@.map_values(|g: String| "- "@ + g@).subrange(
                0,
                k as int,
            ),
        decreases builtin.len() - k,
    {
        let mut l = String::from_str("- ");
        push_str(&mut l, builtin[k].as_str());
        let ghost before = all@.map_values(|s: String| s@);
        let ghost lv = l@;
        all.push(l);
        proof {
            assert(all@.map_values(|s: String| s@) =~= before.push(lv));
            assert(builtin@.map_values(|g: String| "- "@ + g@).subrange(0, k + 1)
                =~= builtin@.map_values(|g: String| "- "@ + g@).subrange(0, k as int).push(lv));
        }
        k = k + 1;
    }
    let ghost part1 = all@.map_values(|s: String| s@);
    proof {
        assert(builtin@.map_values(|g: String| "- "@ + g@).subrange(0, k as int) =~= builtin@.map_values(
            |g: String| "- "@ + g@,
        ));
    }
    let mut l1 = String::from_str("- ");
    push_str(&mut l1, "Be concise in your responses");
    let ghost l1v = l1@;
    all.push(l1);
    let mut l2 = String::from_str("- ");
    push_str(&mut l2, "Show file paths clearly when working with files");
    let ghost l2v = l2@;
    all.push(l2);
    let ghost part2 = all@.map_values(|s: String| s@);
    proof {
        assert(part2 =~= part1.push(l1v).push(l2v));
    }
    let mut t: usize = 0;
    while t < kept.len()
        invariant
            t <= kept@.len(),
            all@.map_values(|s: String| s@) == part2 + kept@.map_values(
                |g: String| "- "@ + g@,
            ).subrange(0, t as int),
        decreases kept.len() - t,
    {
        let mut l = String::from_str("- ");
        push_str(&mut l, kept[t].as_str());
        let ghost before = all@.map_values(|s: String| s@);
        let ghost lv = l@;
        all.push(l);
        proof {
            assert(all@.map_values(|s: String| s@) =~= before.push(lv));
            assert(kept@.map_values(|g: String| "- "@ + g@).subrange(0, t + 1) =~= kept@.map_values(
                |g: String| "- "@ + g@,
            ).subrange(0, t as int).push(lv));
            assert(part2 + kept@.map_values(|g: String| "- "@ + g@).subrange(0, t + 1) =~= (part2
                + kept@.map_values(|g: String| "- "@ + g@).subrange(0, t as int)).push(lv));
        }
        t = t + 1;
    }
    proof {
        assert(kept@.map_values(|g: String| "- "@ + g@).subrange(0, t as int) =~= kept@.map_values(
            |g: String| "- "@ + g@,
        ));
        let gl = all_guidelines(opts.tools@, extras);
        assert(gl.map_values(|g: Seq<char>| "- "@ + g) =~= all@.map_values(|s: String| s@));
    }
    let guidelines_text = join_strings(all.as_slice(), "\n");
    let mut body = String::from_str(
        "You are an expert coding assistant. You help users by reading files, executing commands, editing code, and writing new files.\n\nAvailable tools:\n",
    );
    push_str(&mut body, tool_list.as_str());
    push_str(&mut body, "\n\nGuidelines:\n");
    push_str(&mut body, guidelines_text.as_str());
    body
}

fn push_context_section(prompt: &mut String, cfs: &Vec<ContextFile>)
    ensures
        final(prompt)@ == old(prompt)@ + context_section(cfs@),
{
    if cfs.len() == 0 {
        proof {
            assert(old(prompt)@ + context_section(cfs@) =~= old(prompt)@);
        }
        return;
    }
    let ghost p0 = prompt@;
    push_str(prompt, "\n\n<project_context>\n\n");
    push_str(prompt, "Project-specific instructions and guidelines:\n\n");
    let ghost head = prompt@;
    let mut i: usize = 0;
    proof {
        assert(head + context_entries(cfs@.subrange(0, 0)) =~= head);
    }
    while i < cfs.len()
        invariant
            i <= cfs@.len(),
            prompt@ == head + context_entries(cfs@.subrange(0, i as int)),
        decreases cfs.len() - i,
    {
        let cf = &cfs[i];
        let ghost before = prompt@;
        push_str(prompt, "<project_instructions path=\"");
        push_str(prompt, cf.path.as_str());
        push_str(prompt, "\">\n");
        push_str(prompt, cf.content.as_str());
        push_str(prompt, "\n</project_instructions>\n\n");
        proof {
            let sub = cfs@.subrange(0, i + 1);
            assert(sub.drop_last() =~= cfs@.subrange(0, i as int));
            assert(sub.last() == cfs@[i as int]);
            assert(prompt@ =~= before + context_entry(cfs@[i as int]));
            assert(context_entries(sub) == context_entries(cfs@.subrange(0, i as int))
                + context_entry(cfs@[i as int]));
            assert(prompt@ =~= head + context_entries(sub));
        }
        i = i + 1;
    }
    proof {
        assert(cfs@.subrange(0, i as int) =~= cfs@);
    }
    push_str(prompt, "</project_context>");
    proof {
        assert(prompt@ =~= p0 + context_section(cfs@));
    }
}

fn push_slashed(prompt: &mut String, s: &str)
    ensures
        final(prompt)@ == old(prompt)@ + slashes(s@),
{
    let cwd = str_chars(s);
    let mut k: usize = 0;
    let ghost pre = prompt@;
    proof {
        assert(pre + slashes(cwd@).subrange(0, 0) =~= pre);
    }
    while k < cwd.len()
        invariant
            k <= cwd@.len(),
            cwd@ == s@,
            prompt@ == pre + slashes(cwd@).subrange(0, k as int),
        decreases cwd.len() - k,
    {
        let c = if cwd[k] == '\\' {
            '/'
        } else {
            cwd[k]
        };
        push_char(prompt, c);
        proof {
            assert(slashes(cwd@).subrange(0, k + 1) =~= slashes(cwd@).subrange(0, k as int).push(c));
        }
        k = k + 1;
    }
    proof {
        assert(slashes(cwd@).subrange(0, k as int) =~= slashes(cwd@));
    }
}

/// The system prompt on a given date (`YYYY-MM-DD`).
pub fn build_system_prompt_on(opts: &SystemPromptOptions, date: &str) -> (r: String)
    ensures
        r@ == system_prompt_text(*opts, date@),
{
    let mut prompt = match &opts.custom_prompt {
        Some(c) => c.clone(),
        None => build_default_body(opts),
    };
    let ghost body = prompt@;
    if let Some(extra) = &opts.append {
        push_str(&mut prompt, "\n\n");
        push_str(&mut prompt, extra.as_str());
    }
    let ghost p1 = prompt@;
    push_context_section(&mut prompt, &opts.context_files);
    let ghost p2 = prompt@;
    if tool_listed(&opts.tools, "read") && opts.skills.len() > 0 {
        let s = format_skills_for_system_prompt(opts.skills.as_slice());
        push_str(&mut prompt, s.as_str());
    }
    let ghost p3 = prompt@;
    push_str(&mut prompt, "\nCurrent date: ");
    push_str(&mut prompt, date);
    push_str(&mut prompt, "\nCurrent working directory: ");
    push_slashed(&mut prompt, opts.cwd.as_str());
    proof {
        let appended = match &opts.append {
            Some(a) => "\n\n"@ + a@,
            None => Seq::<char>::empty(),
        };
        assert(p1 =~= body + appended);
        let skills = if has_tool(opts.tools@, "read"@) && opts.skills@.len() > 0 {
            skills_prompt(opts.skills@.map_values(|k: Skill| k@))
        } else {
            Seq::<char>::empty()
        };
        assert(p3 =~= p2 + skills);
        assert(prompt@ =~= body + appended + context_section(opts.context_files@) + skills
            + "\nCurrent date: "@ + date@ + "\nCurrent working directory: "@ + slashes(opts.cwd@));
    }
    prompt
}

/// Today's date (UTC) as `YYYY-MM-DD`, from `chrono::Utc::now`; nothing
/// is promised of its value.
#[verifier::external_body]
fn today_text() -> (r: String) {
    chrono::Utc::now().format("%Y-%m-%d").to_string()
}

/// The system prompt, dated today.
pub fn build_system_prompt(opts: &SystemPromptOptions) -> (r: String)
    ensures
        exists|d: Seq<char>| r@ == system_prompt_text(*opts, d),
{
    let d = today_text();
    build_system_prompt_on(opts, d.as_str())
}

} // verus!

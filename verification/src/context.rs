//! What the coding agent collects before it starts: the directories from
//! the working directory up to the root, the context files found there
//! (outermost first, each path once), and the built-in tools it activates.
use vstd::prelude::*;
use crate::prompt::ContextFile;
use crate::tools::ALL_TOOL_NAMES;

verus! {

/// Why a coding agent could not be built.
#[derive(Clone, Copy, PartialEq, Eq, Structural, Debug)]
pub enum BuildError {
    /// No model client was given.
    MissingClient,
}

impl BuildError {
    pub open spec fn text(&self) -> Seq<char> {
        match self {
            BuildError::MissingClient => "LLM client is required; call .client(...)"@,
        }
    }

    /// The rendered error message.
    pub fn message(&self) -> (s: String)
        ensures
            s@ == self.text(),
    {
        match self {
            BuildError::MissingClient => String::from_str("LLM client is required; call .client(...)"),
        }
    }
}

/// Names of the context files looked for in each directory, in order.
pub const CONTEXT_FILE_NAMES: [&'static str; 2] = ["AGENTS.md", "AGENTS.MD"];

/// `Path::parent` as text, when there is one.
pub uninterp spec fn path_parent(p: Seq<char>) -> Option<Seq<char>>;

/// `Path::parent`: the path without its final component, if there is one
/// (as text). The result is named; the documentation's "without its final
/// component" is stated as: it is shorter.
#[verifier::external_body]
fn parent_of(p: &str) -> (r: Option<String>)
    ensures
        match r {
            Some(q) => path_parent(p@) == Some(q@) && q@.len() < p@.len(),
            None => path_parent(p@) is None,
        },
{
    std::path::Path::new(p).parent().map(|q| q.to_string_lossy().into_owned())
}

/// The directories from `cwd` upwards: each next one is the parent of the
/// one before, until there is no parent (or it is the same directory).
pub fn ancestor_dirs(cwd: &str) -> (r: Vec<String>)
    ensures
        r@.len() >= 1,
        r@[0]@ == cwd@,
        forall|k: int|
            0 <= k < r@.len() - 1 ==> path_parent((#[trigger] r@[k])@) == Some(r@[k + 1]@)
                && r@[k + 1]@ != r@[k]@,
        match path_parent(r@[r@.len() - 1]@) {
            Some(q) => q == r@[r@.len() - 1]@,
            None => true,
        },
{
    let mut out: Vec<String> = Vec::new();
    let mut current = String::from_str(cwd);
    loop
        invariant_except_break
            out@.len() == 0 ==> current@ == cwd@,
            out@.len() > 0 ==> out@[0]@ == cwd@ && path_parent(out@[out@.len() - 1]@) == Some(
                current@,
            ) && current@ != out@[out@.len() - 1]@,
            forall|k: int|
                0 <= k < out@.len() - 1 ==> path_parent((#[trigger] out@[k])@) == Some(
                    out@[k + 1]@,
                ) && out@[k + 1]@ != out@[k]@,
        ensures
            out@.len() >= 1,
            out@[0]@ == cwd@,
            forall|k: int|
                0 <= k < out@.len() - 1 ==> path_parent((#[trigger] out@[k])@) == Some(
                    out@[k + 1]@,
                ) && out@[k + 1]@ != out@[k]@,
            match path_parent(out@[out@.len() - 1]@) {
                Some(q) => q == out@[out@.len() - 1]@,
                None => true,
            },
        decreases current@.len(),
    {
        let ghost old_out = out@;
        let parent = parent_of(current.as_str());
        let c2 = current.clone();
        out.push(c2);
        proof {
            assert forall|k: int| 0 <= k < out@.len() - 1 implies path_parent(
                (#[trigger] out@[k])@,
            ) == Some(out@[k + 1]@) && out@[k + 1]@ != out@[k]@ by {
                assert(out@[k] == old_out[k]);
                if k + 1 < old_out.len() {
                    assert(out@[k + 1] == old_out[k + 1]);
                }
            }
        }
        match parent {
            Some(p) => {
                if p == current {
                    break;
                }
                current = p;
            },
            None => {
                break;
            },
        }
    }
    out
}

/// The files looked for in a directory, in order.
pub fn context_candidates(dir: &str) -> (r: Vec<String>)
    ensures
        r@.len() == 2,
        r@[0]@ == crate::tools::path_join(dir@, "AGENTS.md"@),
        r@[1]@ == crate::tools::path_join(dir@, "AGENTS.MD"@),
{
    let mut out: Vec<String> = Vec::new();
    out.push(crate::tools::join_path(dir, "AGENTS.md"));
    out.push(crate::tools::join_path(dir, "AGENTS.MD"));
    out
}

/// The path occurs among the files.
pub open spec fn path_seen(cs: Seq<ContextFile>, p: Seq<char>) -> bool {
    exists|i: int| 0 <= i < cs.len() && (#[trigger] cs[i]).path@ == p
}

/// The files found, in walking order, each path taken once (the first time).
pub open spec fn first_found(found: Seq<Option<ContextFile>>) -> Seq<ContextFile>
    decreases found.len(),
{
    if found.len() == 0 {
        seq![]
    } else {
        let r = first_found(found.drop_last());
        match found.last() {
            Some(c) => if path_seen(r, c.path@) {
                r
            } else {
                r.push(c)
            },
            None => r,
        }
    }
}

fn path_listed(cs: &Vec<ContextFile>, p: &String) -> (b: bool)
    ensures
        b == path_seen(cs@, p@),
{
    let mut i: usize = 0;
    while i < cs.len()
        invariant
            i <= cs@.len(),
            forall|k: int| 0 <= k < i ==> (#[trigger] cs@[k]).path@ != p@,
        decreases cs.len() - i,
    {
        if cs[i].path == *p {
            return true;
        }
        i = i + 1;
    }
    false
}

/// The project context files, outermost directory first, from what was
/// found in each directory walking up from the working directory (the first
/// readable candidate of each, if any); a path found twice counts once.
pub fn load_project_context_files(found: Vec<Option<ContextFile>>) -> (r: Vec<ContextFile>)
    ensures
        r@ == first_found(found@).reverse(),
{
    let mut seen: Vec<ContextFile> = Vec::new();
    let mut i: usize = 0;
    let mut rest = found;
    let ghost all = rest@;
    let total = rest.len();
    // Walk in order by reversing once, so that popping yields the next one.
    let mut queue: Vec<Option<ContextFile>> = Vec::new();
    while rest.len() > 0
        invariant
            queue@.len() + rest@.len() == all.len(),
            rest@ == all.subrange(0, rest@.len() as int),
            forall|t: int| 0 <= t < queue@.len() ==> #[trigger] queue@[t] == all[all.len() - 1 - t],
        decreases rest@.len(),
    {
        let ghost n = rest@.len();
        let x = rest.pop().unwrap();
        proof {
            assert(rest@ =~= all.subrange(0, n - 1));
        }
        queue.push(x);
    }
    proof {
        assert(all.subrange(0, 0) =~= Seq::<Option<ContextFile>>::empty());
    }
    while queue.len() > 0
        invariant
            i + queue@.len() == all.len(),
            all.len() == total,
            forall|t: int| 0 <= t < queue@.len() ==> #[trigger] queue@[t] == all[all.len() - 1 - t],
            seen@ == first_found(all.subrange(0, i as int)),
        decreases queue@.len(),
    {
        let ghost qn = queue@.len();
        let x = queue.pop().unwrap();
        proof {
            assert(x == all[i as int]);
            assert(all.subrange(0, i + 1).drop_last() =~= all.subrange(0, i as int));
        }
        match x {
            Some(c) => {
                if !path_listed(&seen, &c.path) {
                    seen.push(c);
                }
            },
            None => {},
        }
        i = i + 1;
    }
    proof {
        assert(all.subrange(0, i as int) =~= all);
    }
    let mut out: Vec<ContextFile> = Vec::new();
    let ghost s = seen@;
    while seen.len() > 0
        invariant
            seen@.len() <= s.len(),
            seen@ == s.subrange(0, seen@.len() as int),
            out@ == s.subrange(seen@.len() as int, s.len() as int).reverse(),
        decreases seen@.len(),
    {
        let ghost k = seen@.len();
        let c = seen.pop().unwrap();
        proof {
            assert(c == s[k - 1]);
            assert(seen@ =~= s.subrange(0, k - 1));
        }
        out.push(c);
        proof {
            assert(out@ =~= s.subrange(k - 1, s.len() as int).reverse());
        }
    }
    proof {
        assert(s.subrange(0, s.len() as int) =~= s);
    }
    out
}

/// Names of all built-in tools, in declaration order.
pub open spec fn builtin_names() -> Seq<Seq<char>> {
    seq!["read"@, "bash"@, "edit"@, "write"@, "grep"@, "find"@, "ls"@]
}

/// Names of the tools active by default.
pub open spec fn default_names() -> Seq<Seq<char>> {
    seq!["read"@, "bash"@, "edit"@, "write"@]
}

/// The names that are requested and allowed (all are allowed by default),
/// in their order in `names`.
pub open spec fn keep_wanted(
    names: Seq<Seq<char>>,
    requested: Seq<Seq<char>>,
    allowed: Option<Seq<Seq<char>>>,
) -> Seq<Seq<char>>
    decreases names.len(),
{
    if names.len() == 0 {
        seq![]
    } else {
        let r = keep_wanted(names.drop_last(), requested, allowed);
        let n = names.last();
        if requested.contains(n) && match allowed {
            Some(a) => a.contains(n),
            None => true,
        } {
            r.push(n)
        } else {
            r
        }
    }
}

pub open spec fn texts(v: Seq<String>) -> Seq<Seq<char>> {
    v.map_values(|s: String| s@)
}

fn listed(v: &Vec<String>, n: &String) -> (b: bool)
    ensures
        b == texts(v@).contains(n@),
{
    let mut i: usize = 0;
    while i < v.len()
        invariant
            i <= v@.len(),
            forall|k: int| 0 <= k < i ==> texts(v@)[k] != n@,
        decreases v.len() - i,
    {
        if v[i] == *n {
            assert(texts(v@)[i as int] == n@);
            return true;
        }
        i = i + 1;
    }
    false
}

fn strings_of(names: &[&str]) -> (r: Vec<String>)
    ensures
        texts(r@) == names@.map_values(|s: &str| s@),
{
    let mut out: Vec<String> = Vec::new();
    let mut i: usize = 0;
    while i < names.len()
        invariant
            i <= names@.len(),
            texts(out@) == names@.map_values(|s: &str| s@).subrange(0, i as int),
        decreases names.len() - i,
    {
        let ghost before = texts(out@);
        out.push(String::from_str(names[i]));
        proof {
            assert(texts(out@) =~= before.push(names@[i as int]@));
            assert(names@.map_values(|s: &str| s@).subrange(0, i + 1) =~= names@.map_values(
                |s: &str| s@,
            ).subrange(0, i as int).push(names@[i as int]@));
        }
        i = i + 1;
    }
    proof {
        assert(names@.map_values(|s: &str| s@).subrange(0, i as int) =~= names@.map_values(
            |s: &str| s@,
        ));
    }
    out
}

/// The names of the built-in tools to activate: those requested (by
/// default the default set) and allowed (by default all), in declaration
/// order.
pub fn active_tool_names(requested: Option<Vec<String>>, allowed: Option<Vec<String>>) -> (r: Vec<
    String,
>)
    ensures
        texts(r@) == keep_wanted(
            builtin_names(),
            match requested {
                Some(v) => texts(v@),
                None => default_names(),
            },
            match allowed {
                Some(a) => Some(texts(a@)),
                None => None,
            },
        ),
{
    let all_names: [&str; 7] = ALL_TOOL_NAMES;
    let all = strings_of(&all_names);
    let req = match requested {
        Some(v) => v,
        None => {
            let d: [&str; 4] = crate::tools::DEFAULT_TOOL_NAMES;
            strings_of(&d)
        },
    };
    proof {
        reveal_strlit("read");
        reveal_strlit("bash");
        reveal_strlit("edit");
        reveal_strlit("write");
        reveal_strlit("grep");
        reveal_strlit("find");
        reveal_strlit("ls");
        assert(texts(all@) =~= builtin_names());
    }
    let ghost rv = texts(req@);
    let ghost av = match &allowed {
        Some(a) => Some(texts(a@)),
        None => None,
    };
    let mut out: Vec<String> = Vec::new();
    let mut i: usize = 0;
    proof {
        assert(texts(all@).subrange(0, 0) =~= Seq::<Seq<char>>::empty());
    }
    while i < all.len()
        invariant
            i <= all@.len(),
            rv == texts(req@),
            av == match allowed {
                Some(a) => Some(texts(a@)),
                None => None::<Seq<Seq<char>>>,
            },
            texts(out@) == keep_wanted(texts(all@).subrange(0, i as int), rv, av),
        decreases all.len() - i,
    {
        proof {
            assert(texts(all@).subrange(0, i + 1).drop_last() =~= texts(all@).subrange(0, i as int));
            assert(texts(all@).subrange(0, i + 1).last() == all@[i as int]@);
        }
        let ok = listed(&req, &all[i]) && match &allowed {
            Some(a) => listed(a, &all[i]),
            None => true,
        };
        if ok {
            let ghost before = texts(out@);
            out.push(all[i].clone());
            proof {
                assert(texts(out@) =~= before.push(all@[i as int]@));
            }
        }
        i = i + 1;
    }
    proof {
        assert(texts(all@).subrange(0, i as int) =~= texts(all@));
        if requested is None {
            assert(rv =~= default_names());
        }
    }
    out
}

} // verus!

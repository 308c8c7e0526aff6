//! Skills and prompt templates: frontmatter parsing, skill validation,
//! system-prompt and invocation formatting, placeholder expansion and
//! shell-style argument splitting.
//!
//! Paths are held as their display text.
use vstd::prelude::*;
use crate::chars::{
    find_char, find_exec, find_from, is_digit, is_ws, is_ws_char, join, join_strings,
    split_lines, starts_with, trim, trim_range,
};
use crate::errors::EnvError;
use crate::text::{chars_to_string, decimal, push_chars, push_str, push_str_chars, str_chars, u64_text};
use crate::types::DiagnosticLevel;
use vstd::utf8::{decode_utf8, encode_utf8, is_char_boundary};
use vstd::string::StringSliceAdditionalSpecFns;

verus! {

// ── Data ─────────────────────────────────────────────────────────────────────

/// A skill loaded from a `SKILL.md` file.
#[derive(Debug)]
pub struct Skill {
    /// Unique skill name (lowercase letters, digits and hyphens, at most 64).
    pub name: String,
    /// Optional display label.
    pub label: Option<String>,
    /// Short description shown to the model (at most 1024 characters).
    pub description: String,
    /// Markdown body after the frontmatter.
    pub content: String,
    /// Path of the source file.
    pub source: String,
    /// Excluded from the system prompt; invoked explicitly only.
    pub disable_model_invocation: bool,
}

impl Clone for Skill {
    fn clone(&self) -> (res: Self)
        ensures
            res@ == self@,
    {
        Skill {
            name: self.name.clone(),
            label: crate::types::clone_opt_string(&self.label),
            description: self.description.clone(),
            content: self.content.clone(),
            source: self.source.clone(),
            disable_model_invocation: self.disable_model_invocation,
        }
    }
}

/// Model of a [`Skill`].
pub struct SkillView {
    pub name: Seq<char>,
    pub label: Option<Seq<char>>,
    pub description: Seq<char>,
    pub content: Seq<char>,
    pub source: Seq<char>,
    pub disable_model_invocation: bool,
}

pub open spec fn opt_view(o: Option<String>) -> Option<Seq<char>> {
    match o {
        Some(s) => Some(s@),
        None => None,
    }
}

impl View for Skill {
    type V = SkillView;

    open spec fn view(&self) -> SkillView {
        SkillView {
            name: self.name@,
            label: opt_view(self.label),
            description: self.description@,
            content: self.content@,
            source: self.source@,
            disable_model_invocation: self.disable_model_invocation,
        }
    }
}

/// A skill with the tag of the place it was loaded from.
#[derive(Debug)]
pub struct SourcedSkill {
    pub skill: Skill,
    pub source_tag: String,
}

/// A problem met while loading skills or templates.
#[derive(Debug)]
pub struct SkillDiagnostic {
    pub source: String,
    pub level: DiagnosticLevel,
    pub message: String,
}

/// A prompt template loaded from a `.md` file.
#[derive(Debug)]
pub struct PromptTemplate {
    /// File name without the `.md` extension.
    pub name: String,
    /// Frontmatter description, else the first non-blank body line.
    pub description: String,
    /// Body with `$1`, `$@`, `${@:N}` placeholders.
    pub content: String,
    /// Path of the source file.
    pub source: String,
}

// ── Skill names ──────────────────────────────────────────────────────────────

pub open spec fn skill_name_char(c: char) -> bool {
    ('a' <= c && c <= 'z') || is_digit(c) || c == '-'
}

/// A valid skill name: 1 to 64 characters, each a lowercase ASCII letter, a
/// digit or a hyphen (for such characters bytes and characters coincide).
pub open spec fn valid_skill_name(s: Seq<char>) -> bool {
    0 < s.len() <= 64 && forall|i: int| 0 <= i < s.len() ==> skill_name_char(#[trigger] s[i])
}

/// Whether `name` is a valid skill name.
pub fn is_valid_skill_name(name: &str) -> (b: bool)
    ensures
        b == valid_skill_name(name@),
{
    let v = str_chars(name);
    if v.len() == 0 || v.len() > 64 {
        return false;
    }
    let mut i: usize = 0;
    while i < v.len()
        invariant
            v@ == name@,
            i <= v@.len(),
            forall|k: int| 0 <= k < i ==> skill_name_char(#[trigger] v@[k]),
        decreases v.len() - i,
    {
        let c = v[i];
        if !(('a' <= c && c <= 'z') || ('0' <= c && c <= '9') || c == '-') {
            return false;
        }
        i = i + 1;
    }
    true
}

// ── Shell-style argument splitting ───────────────────────────────────────────

/// State of the argument scanner.
pub struct ArgScan {
    pub args: Seq<Seq<char>>,
    pub current: Seq<char>,
    pub in_single: bool,
    pub in_double: bool,
}

/// One scanner step.
pub open spec fn scan_step(s: ArgScan, ch: char) -> ArgScan {
    if s.in_single {
        if ch == '\'' {
            ArgScan { in_single: false, ..s }
        } else {
            ArgScan { current: s.current.push(ch), ..s }
        }
    } else if s.in_double {
        if ch == '"' {
            ArgScan { in_double: false, ..s }
        } else {
            ArgScan { current: s.current.push(ch), ..s }
        }
    } else if ch == '\'' {
        ArgScan { in_single: true, ..s }
    } else if ch == '"' {
        ArgScan { in_double: true, ..s }
    } else if ch == ' ' || ch == '\t' || ch == '\n' {
        if s.current.len() > 0 {
            ArgScan { args: s.args.push(s.current), current: seq![], ..s }
        } else {
            s
        }
    } else {
        ArgScan { current: s.current.push(ch), ..s }
    }
}

/// The scanner state after reading `input`.
pub open spec fn scan_args(input: Seq<char>) -> ArgScan
    decreases input.len(),
{
    if input.len() == 0 {
        ArgScan { args: seq![], current: seq![], in_single: false, in_double: false }
    } else {
        scan_step(scan_args(input.drop_last()), input.last())
    }
}

/// Arguments of `input`: space, tab and newline separate them outside quotes;
/// single- or double-quoted regions belong to one argument and lose their
/// quotes; empty arguments are dropped.
pub open spec fn command_args(input: Seq<char>) -> Seq<Seq<char>> {
    let s = scan_args(input);
    if s.current.len() > 0 {
        s.args.push(s.current)
    } else {
        s.args
    }
}

/// A word with no separator and no quote character.
pub open spec fn plain_word(w: Seq<char>) -> bool {
    w.len() > 0 && plain_chars(w)
}

/// No character of `w` separates arguments or quotes.
pub open spec fn plain_chars(w: Seq<char>) -> bool {
    forall|i: int|
        0 <= i < w.len() ==> !(#[trigger] w[i] == ' ' || w[i] == '\t' || w[i] == '\n' || w[i] == '\''
            || w[i] == '"')
}

proof fn lemma_scan_push(x: Seq<char>, c: char)
    ensures
        scan_args(x.push(c)) == scan_step(scan_args(x), c),
{
    assert(x.push(c).drop_last() =~= x);
}

proof fn lemma_scan_word(x: Seq<char>, w: Seq<char>)
    requires
        !scan_args(x).in_single,
        !scan_args(x).in_double,
        plain_chars(w),
    ensures
        scan_args(x + w).args == scan_args(x).args,
        scan_args(x + w).current == scan_args(x).current + w,
        !scan_args(x + w).in_single,
        !scan_args(x + w).in_double,
    decreases w.len(),
{
    if w.len() == 0 {
        assert(x + w =~= x);
        assert(scan_args(x).current + w =~= scan_args(x).current);
    } else {
        let w0 = w.drop_last();
        assert(plain_chars(w0)) by {
            assert forall|i: int| 0 <= i < w0.len() implies !(#[trigger] w0[i] == ' ' || w0[i] == '\t'
                || w0[i] == '\n' || w0[i] == '\'' || w0[i] == '"') by {
                assert(w0[i] == w[i]);
            }
        }
        lemma_scan_word(x, w0);
        assert(x + w =~= (x + w0).push(w.last()));
        lemma_scan_push(x + w0, w.last());
        let c = w.last();
        assert(!(c == ' ' || c == '\t' || c == '\n' || c == '\'' || c == '"')) by {
            assert(c == w[w.len() - 1]);
        }
        assert(scan_args(x).current + w =~= (scan_args(x).current + w0).push(c));
    }
}

proof fn lemma_scan_joined(ws: Seq<Seq<char>>)
    requires
        ws.len() >= 1,
        forall|k: int| 0 <= k < ws.len() ==> plain_word(#[trigger] ws[k]),
    ensures
        scan_args(join(ws, seq![' '])).args == ws.drop_last(),
        scan_args(join(ws, seq![' '])).current == ws.last(),
        !scan_args(join(ws, seq![' '])).in_single,
        !scan_args(join(ws, seq![' '])).in_double,
    decreases ws.len(),
{
    let e = Seq::<char>::empty();
    if ws.len() == 1 {
        assert(plain_word(ws[0]));
        lemma_scan_word(e, ws[0]);
        assert(e + ws[0] =~= ws[0]);
        assert(scan_args(e).args =~= ws.drop_last());
        assert(scan_args(e).current + ws[0] =~= ws[0]);
    } else {
        let ws0 = ws.drop_last();
        assert forall|k: int| 0 <= k < ws0.len() implies plain_word(#[trigger] ws0[k]) by {
            assert(ws0[k] == ws[k]);
        }
        lemma_scan_joined(ws0);
        let j0 = join(ws0, seq![' ']);
        let j1 = j0.push(' ');
        lemma_scan_push(j0, ' ');
        assert(plain_word(ws0[ws0.len() - 1]));
        assert(scan_args(j1).args =~= ws0.drop_last().push(ws0.last()));
        assert(ws0.drop_last().push(ws0.last()) =~= ws0);
        assert(plain_word(ws[ws.len() - 1]));
        lemma_scan_word(j1, ws.last());
        assert(join(ws, seq![' ']) =~= j1 + ws.last());
        assert(scan_args(j1).current + ws.last() =~= ws.last());
    }
}

/// Splitting words joined by single spaces gives the words back, when no
/// word is empty or holds a separator or a quote.
pub proof fn law_command_args_of_joined_words(ws: Seq<Seq<char>>)
    requires
        forall|k: int| 0 <= k < ws.len() ==> plain_word(#[trigger] ws[k]),
    ensures
        command_args(join(ws, seq![' '])) == ws,
{
    if ws.len() == 0 {
        assert(join(ws, seq![' ']) =~= Seq::<char>::empty());
        assert(command_args(Seq::<char>::empty()) =~= ws);
    } else {
        lemma_scan_joined(ws);
        assert(plain_word(ws[ws.len() - 1]));
        assert(ws.drop_last().push(ws.last()) =~= ws);
    }
}

/// Splits user input into arguments using shell-style quoting.
pub fn parse_command_args(input: &str) -> (res: Vec<String>)
    ensures
        res@.map_values(|a: String| a@) == command_args(input@),
        forall|k: int| 0 <= k < res@.len() ==> (#[trigger] res@[k])@.len() > 0,
{
    let v = str_chars(input);
    let mut args: Vec<String> = Vec::new();
    let mut current: Vec<char> = Vec::new();
    let mut in_single = false;
    let mut in_double = false;
    let mut i: usize = 0;
    while i < v.len()
        invariant
            v@ == input@,
            i <= v@.len(),
            ({
                let s = scan_args(v@.subrange(0, i as int));
                &&& args@.map_values(|a: String| a@) == s.args
                &&& current@ == s.current
                &&& in_single == s.in_single
                &&& in_double == s.in_double
            }),
            forall|k: int| 0 <= k < args@.len() ==> (#[trigger] args@[k])@.len() > 0,
        decreases v.len() - i,
    {
        proof {
            assert(v@.subrange(0, i + 1).drop_last() =~= v@.subrange(0, i as int));
        }
        let ch = v[i];
        if in_single {
            if ch == '\'' {
                in_single = false;
            } else {
                current.push(ch);
            }
        } else if in_double {
            if ch == '"' {
                in_double = false;
            } else {
                current.push(ch);
            }
        } else if ch == '\'' {
            in_single = true;
        } else if ch == '"' {
            in_double = true;
        } else if ch == ' ' || ch == '\t' || ch == '\n' {
            if current.len() > 0 {
                let ghost before = args@;
                args.push(chars_to_string(current.as_slice()));
                current = Vec::new();
                proof {
                    assert(args@.map_values(|a: String| a@) =~= before.map_values(|a: String| a@).push(
                        scan_args(v@.subrange(0, i as int)).current,
                    ));
                    assert(current@ =~= Seq::<char>::empty());
                }
            }
        } else {
            current.push(ch);
        }
        i = i + 1;
    }
    proof {
        assert(v@.subrange(0, i as int) =~= input@);
    }
    if current.len() > 0 {
        let ghost before = args@;
        args.push(chars_to_string(current.as_slice()));
        proof {
            assert(args@.map_values(|a: String| a@) =~= before.map_values(|a: String| a@).push(
                current@,
            ));
        }
    }
    args
}

// ── Unsigned integer parsing ─────────────────────────────────────────────────

/// Value of a run of decimal digits.
pub open spec fn digits_value(s: Seq<char>) -> nat
    decreases s.len(),
{
    if s.len() == 0 {
        0
    } else {
        digits_value(s.drop_last()) * 10 + ((s.last() as int - '0' as int) as nat)
    }
}

/// All characters are decimal digits.
pub open spec fn all_digits(s: Seq<char>) -> bool {
    forall|i: int| 0 <= i < s.len() ==> is_digit(#[trigger] s[i])
}

/// `usize::from_str`: an optional `+` followed by one or more digits whose
/// value fits in `usize`.
pub open spec fn parse_usize_spec(s: Seq<char>) -> Option<usize> {
    let d = if s.len() > 0 && s[0] == '+' {
        s.drop_first()
    } else {
        s
    };
    if d.len() > 0 && all_digits(d) && digits_value(d) <= usize::MAX {
        Some(digits_value(d) as usize)
    } else {
        None
    }
}

proof fn lemma_digits_value_monotone(s: Seq<char>, k: int)
    requires
        0 <= k <= s.len(),
        all_digits(s),
    ensures
        digits_value(s.subrange(0, k)) <= digits_value(s),
    decreases s.len() - k,
{
    if k < s.len() {
        lemma_digits_value_monotone(s, k + 1);
        let t = s.subrange(0, k + 1);
        assert(t.drop_last() =~= s.subrange(0, k));
        assert(is_digit(s[k]));
    } else {
        assert(s.subrange(0, k) =~= s);
    }
}

/// Parses `v[lo..hi]` as a `usize` the way `str::parse::<usize>` does.
pub fn parse_usize_chars(v: &Vec<char>, lo: usize, hi: usize) -> (r: Option<usize>)
    requires
        lo <= hi <= v@.len(),
    ensures
        r == parse_usize_spec(v@.subrange(lo as int, hi as int)),
{
    let ghost s = v@.subrange(lo as int, hi as int);
    let mut start = lo;
    if lo < hi && v[lo] == '+' {
        start = lo + 1;
    }
    let ghost d = v@.subrange(start as int, hi as int);
    proof {
        if lo < hi && v@[lo as int] == '+' {
            assert(s.drop_first() =~= d);
        } else {
            assert(s =~= d);
        }
    }
    assert(parse_usize_spec(s) == if d.len() > 0 && all_digits(d) && digits_value(d) <= usize::MAX {
        Some(digits_value(d) as usize)
    } else {
        None::<usize>
    });
    if start >= hi {
        return None;
    }
    let mut acc: usize = 0;
    let mut i = start;
    while i < hi
        invariant
            lo <= start <= i <= hi <= v@.len(),
            s == v@.subrange(lo as int, hi as int),
            d == v@.subrange(start as int, hi as int),
            parse_usize_spec(s) == if d.len() > 0 && all_digits(d) && digits_value(d)
                <= usize::MAX {
                Some(digits_value(d) as usize)
            } else {
                None::<usize>
            },
            all_digits(v@.subrange(start as int, i as int)),
            acc == digits_value(v@.subrange(start as int, i as int)),
        decreases hi - i,
    {
        let c = v[i];
        proof {
            assert(v@.subrange(start as int, i + 1).drop_last() =~= v@.subrange(
                start as int,
                i as int,
            ));
        }
        if !('0' <= c && c <= '9') {
            proof {
                assert(d[i - start] == c);
                assert(!all_digits(d));
            }
            return None;
        }
        let dv: usize = ((c as u32) - ('0' as u32)) as usize;
        proof {
            let t = v@.subrange(start as int, i + 1);
            assert(t.last() == c);
            assert(digits_value(t) == digits_value(v@.subrange(start as int, i as int)) * 10 + dv);
            assert forall|k: int| 0 <= k < t.len() implies is_digit(#[trigger] t[k]) by {
                if k < t.len() - 1 {
                    assert(t[k] == v@.subrange(start as int, i as int)[k]);
                }
            }
        }
        match acc.checked_mul(10) {
            None => {
                proof {
                    assert(all_digits(v@.subrange(start as int, i + 1)));
                    assert(acc * 10 > usize::MAX);
                    let dvt = digits_value(v@.subrange(start as int, i + 1));
                    assert(dvt > usize::MAX) by (nonlinear_arith)
                        requires
                            dvt == acc * 10 + dv,
                            acc * 10 > usize::MAX,
                            dv >= 0,
                    ;
                    if all_digits(d) {
                        lemma_digits_value_monotone(d, i + 1 - start);
                        assert(d.subrange(0, i + 1 - start) =~= v@.subrange(start as int, i + 1));
                    }
                }
                return None;
            },
            Some(m) => match m.checked_add(dv) {
                None => {
                    proof {
                        assert(all_digits(v@.subrange(start as int, i + 1)));
                        assert(digits_value(v@.subrange(start as int, i + 1)) > usize::MAX);
                        if all_digits(d) {
                            lemma_digits_value_monotone(d, i + 1 - start);
                            assert(d.subrange(0, i + 1 - start) =~= v@.subrange(
                                start as int,
                                i + 1,
                            ));
                        }
                    }
                    return None;
                },
                Some(a) => {
                    acc = a;
                },
            },
        }
        i = i + 1;
    }
    Some(acc)
}

// ── Placeholder expansion ────────────────────────────────────────────────────

/// Position of the first `'}'` at or after `i`, or the length.
pub open spec fn close_brace(c: Seq<char>, i: int) -> int
    decreases c.len() - i,
{
    if i >= c.len() || i < 0 {
        c.len() as int
    } else if c[i] == '}' {
        i
    } else {
        close_brace(c, i + 1)
    }
}

/// End of the run of digits starting at `i`.
pub open spec fn digits_end(c: Seq<char>, i: int) -> int
    decreases c.len() - i,
{
    if i >= c.len() || i < 0 {
        c.len() as int
    } else if is_digit(c[i]) {
        digits_end(c, i + 1)
    } else {
        i
    }
}

/// The arguments from position `start`, at most `count` of them.
pub open spec fn arg_slice(args: Seq<Seq<char>>, start: int, count: int) -> Seq<Seq<char>> {
    args.subrange(start, start + count)
}

/// Expansion of a brace expression `${expr}`: `@:N` gives the arguments from
/// the N-th on (N defaults to 1 when it does not parse), `@:N:L` at most L of
/// them (L defaults to 0); anything else is kept verbatim.
pub open spec fn expand_brace_spec(expr: Seq<char>, args: Seq<Seq<char>>) -> Seq<char> {
    if starts_with(expr, seq!['@', ':']) {
        let rest = expr.subrange(2, expr.len() as int);
        let colon = find_char(rest, ':');
        let first = if colon >= 0 {
            rest.subrange(0, colon)
        } else {
            rest
        };
        let n: int = match parse_usize_spec(first) {
            Some(x) => x as int,
            None => 1,
        };
        let start = if n - 1 < 0 {
            0
        } else if n - 1 > args.len() {
            args.len() as int
        } else {
            n - 1
        };
        let avail = args.len() - start;
        let count = if colon >= 0 {
            let l: int = match parse_usize_spec(rest.subrange(colon + 1, rest.len() as int)) {
                Some(x) => x as int,
                None => 0,
            };
            if l < avail {
                l
            } else {
                avail
            }
        } else {
            avail
        };
        join(arg_slice(args, start, count), seq![' '])
    } else {
        seq!['$', '{'] + expr + seq!['}']
    }
}

/// Number given by a `$N` placeholder's digits (0 when it does not fit).
pub open spec fn placeholder_index(d: Seq<char>) -> int {
    match parse_usize_spec(d) {
        Some(x) => x as int,
        None => 0,
    }
}

/// The word `ARGUMENTS`.
pub open spec fn arguments_word() -> Seq<char> {
    seq!['A', 'R', 'G', 'U', 'M', 'E', 'N', 'T', 'S']
}

/// Expansion of `c` from position `i`: `$N` is the N-th argument (empty when
/// missing or N is 0), `$@` and `$ARGUMENTS` all arguments joined by spaces,
/// `${...}` a brace expression; any other `$` stays.
pub open spec fn expand_from(c: Seq<char>, args: Seq<Seq<char>>, i: int) -> Seq<char>
    decreases c.len() - i, 0int,
{
    if i < 0 || i >= c.len() {
        seq![]
    } else if c[i] != '$' {
        seq![c[i]] + expand_from(c, args, i + 1)
    } else if i + 1 >= c.len() {
        seq!['$']
    } else if c[i + 1] == '{' {
        let j = close_brace(c, i + 2);
        let next = if j < c.len() {
            j + 1
        } else {
            j
        };
        if next <= i || next > c.len() {
            seq![]
        } else {
            expand_brace_spec(c.subrange(i + 2, j), args) + expand_from(c, args, next)
        }
    } else if c[i + 1] == '@' {
        join(args, seq![' ']) + expand_from(c, args, i + 2)
    } else if starts_with(c.subrange(i + 1, c.len() as int), arguments_word()) {
        join(args, seq![' ']) + expand_from(c, args, i + 10)
    } else if is_digit(c[i + 1]) {
        let j = digits_end(c, i + 1);
        let n = placeholder_index(c.subrange(i + 1, j));
        if j <= i || j > c.len() {
            seq![]
        } else {
            (if 0 < n <= args.len() {
                args[n - 1]
            } else {
                seq![]
            }) + expand_from(c, args, j)
        }
    } else {
        seq!['$'] + expand_from(c, args, i + 1)
    }
}

proof fn lemma_close_brace(c: Seq<char>, i: int)
    requires
        0 <= i,
    ensures
        i <= close_brace(c, i) <= c.len() || (i > c.len() && close_brace(c, i) == c.len()),
        close_brace(c, i) < c.len() ==> c[close_brace(c, i)] == '}',
    decreases c.len() - i,
{
    if i < c.len() && c[i] != '}' {
        lemma_close_brace(c, i + 1);
    }
}

proof fn lemma_digits_end(c: Seq<char>, i: int)
    requires
        0 <= i <= c.len(),
    ensures
        i <= digits_end(c, i) <= c.len(),
        all_digits(c.subrange(i, digits_end(c, i))),
        digits_end(c, i) < c.len() ==> !is_digit(c[digits_end(c, i)]),
    decreases c.len() - i,
{
    if i < c.len() && is_digit(c[i]) {
        lemma_digits_end(c, i + 1);
        let j = digits_end(c, i);
        assert forall|k: int| 0 <= k < j - i implies is_digit(#[trigger] c.subrange(i, j)[k]) by {
            if k > 0 {
                assert(c.subrange(i, j)[k] == c.subrange(i + 1, j)[k - 1]);
            }
        }
    }
}

/// Expands `${expr}`.
pub fn expand_brace(expr: &str, args: &[String]) -> (r: String)
    ensures
        r@ == expand_brace_spec(expr@, args@.map_values(|a: String| a@)),
{
    let ghost av = args@.map_values(|a: String| a@);
    let v = str_chars(expr);
    let prefix: Vec<char> = vec!['@', ':'];
    assert(prefix@ =~= seq!['@', ':']);
    if !crate::chars::starts_with_exec(&v, &prefix) {
        let mut out = String::new();
        push_str(&mut out, "${");
        push_str(&mut out, expr);
        push_str(&mut out, "}");
        proof {
            reveal_strlit("${");
            reveal_strlit("}");
            assert(out@ =~= seq!['$', '{'] + expr@ + seq!['}']);
        }
        return out;
    }
    let ghost rest = v@.subrange(2, v@.len() as int);
    let colon_v: Vec<char> = vec![':'];
    assert(colon_v@ =~= seq![':']);
    let colon = find_exec(&v, &colon_v, 2);
    proof {
        lemma_find_shift(v@, ':', 2);
        lemma_find_from_bounds(v@, seq![':'], 2);
        assert(rest =~= v@.subrange(2, v@.len() as int));
    }
    let first_end = match colon {
        Some(c) => c,
        None => v.len(),
    };
    proof {
        lemma_find_from_bounds(v@, seq![':'], 2);
    }
    let n: usize = match parse_usize_chars(&v, 2, first_end) {
        Some(x) => x,
        None => 1,
    };
    proof {
        assert(v@.subrange(2, first_end as int) =~= if find_char(rest, ':') >= 0 {
            rest.subrange(0, find_char(rest, ':'))
        } else {
            rest
        });
    }
    let nm1 = if n == 0 {
        0
    } else {
        n - 1
    };
    let start = if nm1 > args.len() {
        args.len()
    } else {
        nm1
    };
    let avail = args.len() - start;
    let count = match colon {
        Some(c) => {
            assert(c + 1 <= v@.len());
            let l: usize = match parse_usize_chars(&v, c + 1, v.len()) {
                Some(x) => x,
                None => 0,
            };
            proof {
                assert(v@.subrange(c + 1, v@.len() as int) =~= rest.subrange(
                    find_char(rest, ':') + 1,
                    rest.len() as int,
                ));
            }
            if l < avail {
                l
            } else {
                avail
            }
        },
        None => avail,
    };
    let mut parts: Vec<String> = Vec::new();
    let mut k: usize = 0;
    assert(start + count <= args@.len());
    while k < count
        invariant
            start + count <= args@.len(),
            args@.len() == args.len(),
            k <= count,
            av == args@.map_values(|a: String| a@),
            parts@.map_values(|a: String| a@) == av.subrange(start as int, start + k),
        decreases count - k,
    {
        let ghost before = parts@;
        let a = args[start + k].clone();
        parts.push(a);
        proof {
            assert(parts@ =~= before.push(a));
            assert(av[start + k] == a@);
            assert(before.map_values(|a: String| a@) =~= av.subrange(start as int, start + k));
            assert(parts@.map_values(|a: String| a@) =~= before.map_values(|a: String| a@).push(a@));
            assert(parts@.map_values(|a: String| a@) =~= av.subrange(start as int, start + k + 1));
        }
        k = k + 1;
    }
    let r = join_strings(parts.as_slice(), " ");
    proof {
        reveal_strlit(" ");
        assert(" "@ =~= seq![' ']);
        assert(parts@.map_values(|a: String| a@) =~= arg_slice(av, start as int, count as int));
    }
    r
}

proof fn lemma_find_from_bounds(s: Seq<char>, p: Seq<char>, i: int)
    ensures
        find_from(s, p, i) == -1 || (i <= find_from(s, p, i) && find_from(s, p, i) + p.len()
            <= s.len() && s.subrange(find_from(s, p, i), find_from(s, p, i) + p.len()) == p),
    decreases s.len() + 1 - i,
{
    if !(i < 0 || i + p.len() > s.len()) && !crate::chars::occurs_at(s, p, i) {
        lemma_find_from_bounds(s, p, i + 1);
    }
}

/// Searching from an offset is searching the suffix, shifted.
proof fn lemma_find_shift(s: Seq<char>, c: char, off: int)
    requires
        0 <= off <= s.len(),
    ensures
        find_from(s, seq![c], off) == if find_char(s.subrange(off, s.len() as int), c) >= 0 {
            find_char(s.subrange(off, s.len() as int), c) + off
        } else {
            -1
        },
{
    lemma_find_shift_at(s, c, off, off);
}

proof fn lemma_find_shift_at(s: Seq<char>, c: char, off: int, i: int)
    requires
        0 <= off <= i,
        off <= s.len(),
    ensures
        find_from(s, seq![c], i) == if find_from(s.subrange(off, s.len() as int), seq![c], i - off)
            >= 0 {
            find_from(s.subrange(off, s.len() as int), seq![c], i - off) + off
        } else {
            -1
        },
    decreases s.len() + 1 - i,
{
    let t = s.subrange(off, s.len() as int);
    if i + 1 <= s.len() {
        assert(s.subrange(i, i + 1) =~= t.subrange(i - off, i - off + 1));
        if !crate::chars::occurs_at(s, seq![c], i) {
            lemma_find_shift_at(s, c, off, i + 1);
        }
    }
}

/// Expands the placeholders of `content` with `args`.
pub fn expand_placeholders(content: &str, args: &[String]) -> (r: String)
    ensures
        r@ == expand_from(content@, args@.map_values(|a: String| a@), 0),
{
    let ghost av = args@.map_values(|a: String| a@);
    let v = str_chars(content);
    let n = v.len();
    let mut out: Vec<char> = Vec::new();
    let mut i: usize = 0;
    let all = join_strings(args, " ");
    proof {
        reveal_strlit(" ");
        assert(" "@ =~= seq![' ']);
    }
    while i < n
        invariant
            v@ == content@,
            n == v@.len(),
            av == args@.map_values(|a: String| a@),
            all@ == join(av, seq![' ']),
            i <= n,
            out@ + expand_from(v@, av, i as int) == expand_from(v@, av, 0),
        decreases n - i,
    {
        let ghost before = out@;
        if v[i] != '$' {
            out.push(v[i]);
            proof {
                assert(before + expand_from(v@, av, i as int) =~= out@ + expand_from(v@, av, i + 1));
            }
            i = i + 1;
        } else if i + 1 >= n {
            out.push('$');
            proof {
                assert(before + expand_from(v@, av, i as int) =~= out@ + expand_from(v@, av, n as int));
            }
            i = n;
        } else if v[i + 1] == '{' {
            let mut j = i + 2;
            proof {
                lemma_close_brace(v@, (i + 2) as int);
            }
            while j < n && v[j] != '}'
                invariant
                    i + 2 <= j <= n,
                    n == v@.len(),
                    close_brace(v@, (i + 2) as int) == close_brace(v@, j as int),
                decreases n - j,
            {
                j = j + 1;
            }
            let expr = chars_range_string(&v, i + 2, j);
            let e = expand_brace(expr.as_str(), args);
            push_str_chars(&mut out, e.as_str());
            let next = if j < n {
                j + 1
            } else {
                j
            };
            proof {
                assert(out@ =~= before + expand_brace_spec(v@.subrange(i + 2, j as int), av));
                assert(before + expand_from(v@, av, i as int) =~= out@ + expand_from(
                    v@,
                    av,
                    next as int,
                ));
            }
            i = next;
        } else if v[i + 1] == '@' {
            push_str_chars(&mut out, all.as_str());
            proof {
                assert(before + expand_from(v@, av, i as int) =~= out@ + expand_from(v@, av, i + 2));
            }
            i = i + 2;
        } else if starts_with_at(&v, i + 1) {
            push_str_chars(&mut out, all.as_str());
            proof {
                assert(before + expand_from(v@, av, i as int) =~= out@ + expand_from(v@, av, i + 10));
            }
            i = i + 10;
        } else if '0' <= v[i + 1] && v[i + 1] <= '9' {
            let mut j = i + 1;
            proof {
                lemma_digits_end(v@, (i + 1) as int);
            }
            while j < n && '0' <= v[j] && v[j] <= '9'
                invariant
                    i + 1 <= j <= n,
                    n == v@.len(),
                    digits_end(v@, (i + 1) as int) == digits_end(v@, j as int),
                decreases n - j,
            {
                j = j + 1;
            }
            let k: usize = match parse_usize_chars(&v, i + 1, j) {
                Some(x) => x,
                None => 0,
            };
            if 0 < k && k <= args.len() {
                push_str_chars(&mut out, args[k - 1].as_str());
            }
            proof {
                assert(j > i);
                assert(before + expand_from(v@, av, i as int) =~= out@ + expand_from(
                    v@,
                    av,
                    j as int,
                ));
            }
            i = j;
        } else {
            out.push('$');
            proof {
                assert(before + expand_from(v@, av, i as int) =~= out@ + expand_from(v@, av, i + 1));
            }
            i = i + 1;
        }
    }
    proof {
        assert(out@ =~= expand_from(v@, av, 0));
    }
    chars_to_string(out.as_slice())
}

/// Whether `v[i..]` starts with `ARGUMENTS`.
fn starts_with_at(v: &Vec<char>, i: usize) -> (b: bool)
    requires
        i <= v@.len(),
    ensures
        b == starts_with(v@.subrange(i as int, v@.len() as int), arguments_word()),
{
    let w: Vec<char> = vec!['A', 'R', 'G', 'U', 'M', 'E', 'N', 'T', 'S'];
    assert(w@ =~= arguments_word());
    let r = crate::chars::occurs_at_exec(v, &w, i);
    proof {
        if r {
            assert(v@.subrange(i as int, v@.len() as int).subrange(0, 9) =~= v@.subrange(
                i as int,
                i + 9,
            ));
        } else if i + 9 <= v@.len() {
            assert(v@.subrange(i as int, v@.len() as int).subrange(0, 9) =~= v@.subrange(
                i as int,
                i + 9,
            ));
        }
    }
    r
}

/// The characters `v[lo..hi]` as a string.
pub fn chars_range_string(v: &Vec<char>, lo: usize, hi: usize) -> (s: String)
    requires
        lo <= hi <= v@.len(),
    ensures
        s@ == v@.subrange(lo as int, hi as int),
{
    let mut out: Vec<char> = Vec::new();
    push_chars(&mut out, v, lo, hi);
    proof {
        assert(out@ =~= v@.subrange(lo as int, hi as int));
    }
    chars_to_string(out.as_slice())
}

/// Expands the template's placeholders with `args`.
pub fn invoke_template(template: &PromptTemplate, args: &[String]) -> (r: String)
    ensures
        r@ == expand_from(template.content@, args@.map_values(|a: String| a@), 0),
{
    expand_placeholders(template.content.as_str(), args)
}

// ── Prompt formatting ────────────────────────────────────────────────────────

/// One skill's line in the system prompt.
pub open spec fn skill_line(k: SkillView) -> Seq<char> {
    "  <skill name=\""@ + k.name + "\" location=\""@ + k.source + "\">"@ + k.description
        + "</skill>\n"@
}

/// Lines of the skills that the model may invoke, in order.
pub open spec fn skill_lines(ks: Seq<SkillView>) -> Seq<char>
    decreases ks.len(),
{
    if ks.len() == 0 {
        seq![]
    } else if ks.last().disable_model_invocation {
        skill_lines(ks.drop_last())
    } else {
        skill_lines(ks.drop_last()) + skill_line(ks.last())
    }
}

/// Some skill may be invoked by the model.
pub open spec fn any_visible(ks: Seq<SkillView>) -> bool {
    exists|i: int| 0 <= i < ks.len() && !(#[trigger] ks[i]).disable_model_invocation
}

/// The skills section of the system prompt: empty when no skill is visible.
pub open spec fn skills_prompt(ks: Seq<SkillView>) -> Seq<char> {
    if any_visible(ks) {
        "<available-skills>\n"@ + skill_lines(ks) + "</available-skills>"@
    } else {
        seq![]
    }
}

/// Builds the skills section injected into the system prompt; skills that
/// disable model invocation are left out.
pub fn format_skills_for_system_prompt(skills: &[Skill]) -> (r: String)
    ensures
        r@ == skills_prompt(skills@.map_values(|k: Skill| k@)),
{
    let ghost ks = skills@.map_values(|k: Skill| k@);
    let mut lines = String::new();
    let mut visible = false;
    let mut i: usize = 0;
    while i < skills.len()
        invariant
            ks == skills@.map_values(|k: Skill| k@),
            i <= skills@.len(),
            lines@ == skill_lines(ks.subrange(0, i as int)),
            visible == any_visible(ks.subrange(0, i as int)),
        decreases skills.len() - i,
    {
        proof {
            let t = ks.subrange(0, i + 1);
            assert(t.drop_last() =~= ks.subrange(0, i as int));
            assert(t.last() == skills@[i as int]@);
            if any_visible(ks.subrange(0, i as int)) {
                let w = choose|w: int|
                    0 <= w < i && !(#[trigger] ks.subrange(0, i as int)[w]).disable_model_invocation;
                assert(t[w] == ks.subrange(0, i as int)[w]);
            }
            if any_visible(t) {
                let w = choose|w: int| 0 <= w < i + 1 && !(#[trigger] t[w]).disable_model_invocation;
                if w < i {
                    assert(t[w] == ks.subrange(0, i as int)[w]);
                }
            }
        }
        let k = &skills[i];
        if !k.disable_model_invocation {
            visible = true;
            push_str(&mut lines, "  <skill name=\"");
            push_str(&mut lines, k.name.as_str());
            push_str(&mut lines, "\" location=\"");
            push_str(&mut lines, k.source.as_str());
            push_str(&mut lines, "\">");
            push_str(&mut lines, k.description.as_str());
            push_str(&mut lines, "</skill>\n");
            proof {
                let t = ks.subrange(0, i + 1);
                assert(!t[i as int].disable_model_invocation);
            }
        }
        i = i + 1;
    }
    proof {
        assert(ks.subrange(0, i as int) =~= ks);
    }
    if !visible {
        return String::new();
    }
    let mut buf = String::new();
    push_str(&mut buf, "<available-skills>\n");
    push_str(&mut buf, lines.as_str());
    push_str(&mut buf, "</available-skills>");
    buf
}

/// The invocation text of a skill, with optional extra instructions.
pub open spec fn skill_invocation(k: SkillView, extra: Option<Seq<char>>) -> Seq<char> {
    "<skill name=\""@ + k.name + "\" location=\""@ + k.source + "\">\n"@ + k.content
        + "\n</skill>"@ + match extra {
        Some(x) => seq!['\n'] + x,
        None => seq![],
    }
}

/// Wraps a skill's content for explicit invocation as a user message.
pub fn format_skill_invocation(skill: &Skill, additional_instructions: Option<&str>) -> (r: String)
    ensures
        r@ == skill_invocation(
            skill@,
            match additional_instructions {
                Some(x) => Some(x@),
                None => None,
            },
        ),
{
    let mut buf = String::new();
    push_str(&mut buf, "<skill name=\"");
    push_str(&mut buf, skill.name.as_str());
    push_str(&mut buf, "\" location=\"");
    push_str(&mut buf, skill.source.as_str());
    push_str(&mut buf, "\">\n");
    push_str(&mut buf, skill.content.as_str());
    push_str(&mut buf, "\n</skill>");
    if let Some(extra) = additional_instructions {
        crate::text::push_char(&mut buf, '\n');
        push_str(&mut buf, extra);
    }
    proof {
        assert(buf@ =~= skill_invocation(
            skill@,
            match additional_instructions {
                Some(x) => Some(x@),
                None => None,
            },
        ));
    }
    buf
}

// ── Frontmatter ──────────────────────────────────────────────────────────────

/// Unicode lowercase mapping of a string (`str::to_lowercase`).
pub uninterp spec fn lowercase(s: Seq<char>) -> Seq<char>;

/// Lowercases a string (`str::to_lowercase`, a fixed Unicode mapping); the
/// result is named, not described.
#[verifier::external_body]
fn to_lowercase_str(s: &str) -> (r: String)
    ensures
        r@ == lowercase(s@),
{
    s.to_lowercase()
}

/// Lowercases a string (Unicode).
pub fn lowercase_text(s: &str) -> (r: String)
    ensures
        r@ == lowercase(s@),
{
    to_lowercase_str(s)
}

/// Frontmatter fields: `(key, value)` pairs with distinct keys.
pub type Fields = Seq<(Seq<char>, Seq<char>)>;

/// A value without one pair of surrounding double or single quotes.
pub open spec fn unquote(v: Seq<char>) -> Seq<char> {
    if v.len() >= 2 && v[0] == '"' && v.last() == '"' {
        v.subrange(1, v.len() - 1)
    } else if v.len() >= 2 && v[0] == '\'' && v.last() == '\'' {
        v.subrange(1, v.len() - 1)
    } else {
        v
    }
}

/// The field of one frontmatter line: blank lines, `#` comments and lines
/// without a colon give none; the key is trimmed and lowercased, the value
/// trimmed and unquoted.
pub open spec fn line_field(line: Seq<char>) -> Option<(Seq<char>, Seq<char>)> {
    let l = trim(line);
    if l.len() == 0 || l[0] == '#' {
        None
    } else {
        let c = find_char(l, ':');
        if c < 0 {
            None
        } else {
            let key = lowercase(trim(l.subrange(0, c)));
            if key.len() == 0 {
                None
            } else {
                Some((key, unquote(trim(l.subrange(c + 1, l.len() as int)))))
            }
        }
    }
}

/// Position of key `k`, or -1.
pub open spec fn key_index(fs: Fields, k: Seq<char>) -> int
    decreases fs.len(),
{
    if fs.len() == 0 {
        -1
    } else {
        let r = key_index(fs.drop_last(), k);
        if r >= 0 {
            r
        } else if fs.last().0 == k {
            fs.len() - 1
        } else {
            -1
        }
    }
}

/// Sets key `k` to `v` (a later value replaces an earlier one in place).
pub open spec fn insert_field(fs: Fields, k: Seq<char>, v: Seq<char>) -> Fields {
    let i = key_index(fs, k);
    if i >= 0 {
        fs.update(i, (k, v))
    } else {
        fs.push((k, v))
    }
}

/// The value of key `k`.
pub open spec fn field_get(fs: Fields, k: Seq<char>) -> Option<Seq<char>> {
    let i = key_index(fs, k);
    if i >= 0 {
        Some(fs[i].1)
    } else {
        None
    }
}

/// Fields of a list of frontmatter lines.
pub open spec fn fields_of(lines: Seq<Seq<char>>) -> Fields
    decreases lines.len(),
{
    if lines.len() == 0 {
        seq![]
    } else {
        let r = fields_of(lines.drop_last());
        match line_field(lines.last()) {
            Some(kv) => insert_field(r, kv.0, kv.1),
            None => r,
        }
    }
}

/// `s` without leading newlines.
pub open spec fn trim_leading_newlines(s: Seq<char>) -> Seq<char>
    decreases s.len(),
{
    if s.len() > 0 && s[0] == '\n' {
        trim_leading_newlines(s.drop_first())
    } else {
        s
    }
}

pub open spec fn fence() -> Seq<char> {
    seq!['-', '-', '-']
}

pub open spec fn closing_fence() -> Seq<char> {
    seq!['\n', '-', '-', '-']
}

/// Frontmatter text and body: the text must open with `---` followed by a
/// newline (or end), and a later line must start with `---`.
pub open spec fn fm_split(text: Seq<char>) -> Option<(Seq<char>, Seq<char>)> {
    if !starts_with(text, fence()) {
        None
    } else {
        let rest = text.subrange(3, text.len() as int);
        if !(rest.len() == 0 || rest[0] == '\n') {
            None
        } else {
            let after = if rest.len() > 0 {
                rest.subrange(1, rest.len() as int)
            } else {
                rest
            };
            let close = find_from(after, closing_fence(), 0);
            if close < 0 {
                None
            } else {
                Some(
                    (
                        after.subrange(0, close),
                        trim_leading_newlines(after.subrange(close + 4, after.len() as int)),
                    ),
                )
            }
        }
    }
}

/// Fields and body of a Markdown text with optional frontmatter; without
/// frontmatter there are no fields and the body is the whole text.
pub open spec fn frontmatter(text: Seq<char>) -> (Fields, Seq<char>) {
    match fm_split(text) {
        Some(p) => (fields_of(split_lines(p.0)), p.1),
        None => (seq![], text),
    }
}

/// The models of field pairs.
pub open spec fn fields_view(v: Seq<(String, String)>) -> Fields {
    v.map_values(|p: (String, String)| (p.0@, p.1@))
}

/// Sets a field: replaces the value of an existing key in place, else
/// appends the pair.
pub fn set_field(fields: &mut Vec<(String, String)>, key: String, val: String)
    ensures
        fields_view(final(fields)@) == insert_field(fields_view(old(fields)@), key@, val@),
{
    let ghost fs = fields_view(fields@);
    let mut i: usize = 0;
    while i < fields.len()
        invariant
            fs == fields_view(fields@),
            fs == fields_view(old(fields)@),
            i <= fields@.len(),
            key_index(fs.subrange(0, i as int), key@) == -1,
        decreases fields.len() - i,
    {
        proof {
            assert(fs.subrange(0, i + 1).drop_last() =~= fs.subrange(0, i as int));
        }
        if fields[i].0 == key {
            proof {
                lemma_key_index_prefix(fs, key@, i as int);
                assert(insert_field(fs, key@, val@) == fs.update(i as int, (key@, val@)));
            }
            fields.set(i, (key, val));
            proof {
                assert(fields_view(fields@) =~= fs.update(i as int, (key@, val@)));
            }
            return;
        }
        i = i + 1;
    }
    proof {
        assert(fs.subrange(0, i as int) =~= fs);
    }
    fields.push((key, val));
    proof {
        assert(fields_view(fields@) =~= fs.push((key@, val@)));
    }
}

proof fn lemma_key_index_prefix(fs: Fields, k: Seq<char>, i: int)
    requires
        0 <= i < fs.len(),
        key_index(fs.subrange(0, i), k) == -1,
        fs[i].0 == k,
    ensures
        key_index(fs, k) == i,
    decreases fs.len(),
{
    if fs.len() == i + 1 {
        assert(fs.drop_last() =~= fs.subrange(0, i));
    } else {
        assert(fs.drop_last().subrange(0, i) =~= fs.subrange(0, i));
        lemma_key_index_prefix(fs.drop_last(), k, i);
    }
}

/// Position of `ch` in `v[lo..hi]`, absolute.
fn find_char_in(v: &Vec<char>, lo: usize, hi: usize, ch: char) -> (r: Option<usize>)
    requires
        lo <= hi <= v@.len(),
    ensures
        match r {
            Some(p) => lo <= p < hi && find_char(v@.subrange(lo as int, hi as int), ch) == p - lo,
            None => find_char(v@.subrange(lo as int, hi as int), ch) == -1,
        },
{
    let ghost l = v@.subrange(lo as int, hi as int);
    let mut k = lo;
    while k < hi
        invariant
            lo <= k <= hi <= v@.len(),
            l == v@.subrange(lo as int, hi as int),
            find_char(l, ch) == find_from(l, seq![ch], k - lo),
        decreases hi - k,
    {
        proof {
            assert(l.subrange(k - lo, k - lo + 1) =~= seq![l[k - lo]]);
        }
        if v[k] == ch {
            proof {
                assert(l[k - lo] == ch);
                assert(l.subrange(k - lo, k - lo + 1) =~= seq![ch]);
            }
            return Some(k);
        }
        proof {
            assert(l[k - lo] != ch);
            assert(l.subrange(k - lo, k - lo + 1) != seq![ch]) by {
                assert(l.subrange(k - lo, k - lo + 1)[0] != seq![ch][0]);
            }
        }
        k = k + 1;
    }
    None
}

/// Applies one frontmatter line `v[a..b]`.
fn apply_line(fields: &mut Vec<(String, String)>, v: &Vec<char>, a: usize, b: usize)
    requires
        a <= b <= v@.len(),
    ensures
        fields_view(final(fields)@) == match line_field(v@.subrange(a as int, b as int)) {
            Some(kv) => insert_field(fields_view(old(fields)@), kv.0, kv.1),
            None => fields_view(old(fields)@),
        },
{
    let (lo, hi) = trim_range(v, a, b);
    let ghost l = v@.subrange(lo as int, hi as int);
    if lo == hi || v[lo] == '#' {
        proof {
            if lo < hi {
                assert(l[0] == v@[lo as int]);
            }
        }
        return;
    }
    let c = match find_char_in(v, lo, hi, ':') {
        Some(c) => c,
        None => {
            return;
        },
    };
    let (klo, khi) = trim_range(v, lo, c);
    let key_raw = chars_range_string(v, klo, khi);
    let key = to_lowercase_str(key_raw.as_str());
    proof {
        assert(v@.subrange(lo as int, c as int) =~= l.subrange(0, c - lo));
    }
    if key.as_str().is_empty() {
        return;
    }
    let (vlo, vhi) = trim_range(v, c + 1, hi);
    proof {
        assert(v@.subrange(c + 1, hi as int) =~= l.subrange(c - lo + 1, l.len() as int));
    }
    let ghost tv = v@.subrange(vlo as int, vhi as int);
    let mut ulo = vlo;
    let mut uhi = vhi;
    if vhi - vlo >= 2 && ((v[vlo] == '"' && v[vhi - 1] == '"') || (v[vlo] == '\'' && v[vhi - 1]
        == '\'')) {
        ulo = vlo + 1;
        uhi = vhi - 1;
    }
    proof {
        assert(tv.len() == vhi - vlo);
        if vhi - vlo >= 2 {
            assert(tv[0] == v@[vlo as int]);
            assert(tv.last() == v@[vhi - 1]);
            assert(tv.subrange(1, tv.len() - 1) =~= v@.subrange(vlo + 1, vhi - 1));
        }
        assert(v@.subrange(ulo as int, uhi as int) == unquote(tv));
    }
    let val = chars_range_string(v, ulo, uhi);
    set_field(fields, key, val);
}

/// Splits optional YAML-style frontmatter from a Markdown text. Returns the
/// fields (keys lowercased, a later key replacing an earlier one) and the
/// body; without frontmatter, no fields and the whole text.
pub fn parse_frontmatter(text: &str) -> (r: (Vec<(String, String)>, String))
    ensures
        (fields_view(r.0@), r.1@) == frontmatter(text@),
{
    let v = str_chars(text);
    let mut fields: Vec<(String, String)> = Vec::new();
    let n = v.len();
    let no_fm = (Vec::<(String, String)>::new(), String::from_str(text));
    proof {
        assert(fields_view(no_fm.0@) =~= Seq::<(Seq<char>, Seq<char>)>::empty());
    }
    let f: Vec<char> = vec!['-', '-', '-'];
    assert(f@ =~= fence());
    if !crate::chars::starts_with_exec(&v, &f) {
        return no_fm;
    }
    let ghost rest = v@.subrange(3, n as int);
    if !(n == 3 || v[3] == '\n') {
        proof {
            assert(rest[0] == v@[3]);
        }
        return no_fm;
    }
    let start: usize = if n > 3 {
        4
    } else {
        3
    };
    let ghost after = v@.subrange(start as int, n as int);
    proof {
        if n > 3 {
            assert(rest.subrange(1, rest.len() as int) =~= after);
        } else {
            assert(rest =~= after);
        }
    }
    let cf: Vec<char> = vec!['\n', '-', '-', '-'];
    assert(cf@ =~= closing_fence());
    let close = match find_exec(&v, &cf, start) {
        Some(c) => c,
        None => {
            proof {
                lemma_find_from_offset(v@, closing_fence(), start as int, start as int);
            }
            return no_fm;
        },
    };
    proof {
        lemma_find_from_offset(v@, closing_fence(), start as int, start as int);
        lemma_find_from_bounds(v@, closing_fence(), start as int);
    }
    // Fields, line by line.
    let ghost fm = v@.subrange(start as int, close as int);
    let ghost mut prev: Seq<Seq<char>> = seq![];
    let mut a = start;
    let mut k = start;
    proof {
        assert(fm.subrange(0, 0) =~= Seq::<char>::empty());
        assert(v@.subrange(a as int, k as int) =~= Seq::<char>::empty());
        assert(split_lines(fm.subrange(0, 0)) =~~= prev.push(v@.subrange(a as int, k as int)));
        assert(fields_view(fields@) =~= Seq::<(Seq<char>, Seq<char>)>::empty());
    }
    while k < close
        invariant
            start <= a <= k <= close <= n,
            n == v@.len(),
            fm == v@.subrange(start as int, close as int),
            split_lines(fm.subrange(0, k - start)) == prev.push(v@.subrange(a as int, k as int)),
            fields_view(fields@) == fields_of(prev),
        decreases close - k,
    {
        let ghost t = fm.subrange(0, k + 1 - start);
        proof {
            assert(t.drop_last() =~= fm.subrange(0, k - start));
            assert(t.last() == v@[k as int]);
        }
        if v[k] == '\n' {
            apply_line(&mut fields, &v, a, k);
            proof {
                let line = v@.subrange(a as int, k as int);
                assert(prev.push(line).drop_last() =~= prev);
                prev = prev.push(line);
                assert(v@.subrange(k + 1, k + 1) =~= Seq::<char>::empty());
                assert(split_lines(t) =~= prev.push(v@.subrange(k + 1, k + 1)));
            }
            a = k + 1;
        } else {
            proof {
                let r = split_lines(fm.subrange(0, k - start));
                assert(r.last() == v@.subrange(a as int, k as int));
                assert(v@.subrange(a as int, k + 1) =~= v@.subrange(a as int, k as int).push(
                    v@[k as int],
                ));
                assert(split_lines(t) =~~= prev.push(v@.subrange(a as int, k + 1)));
            }
        }
        k = k + 1;
    }
    apply_line(&mut fields, &v, a, close);
    proof {
        let line = v@.subrange(a as int, close as int);
        assert(fm.subrange(0, close - start) =~= fm);
        assert(prev.push(line).drop_last() =~= prev);
    }
    // Body.
    let mut b = close + 4;
    proof {
        assert(after.subrange(close - start + 4, after.len() as int) =~= v@.subrange(
            b as int,
            n as int,
        ));
    }
    while b < n && v[b] == '\n'
        invariant
            close + 4 <= b <= n,
            n == v@.len(),
            trim_leading_newlines(v@.subrange(close + 4, n as int)) == trim_leading_newlines(
                v@.subrange(b as int, n as int),
            ),
        decreases n - b,
    {
        proof {
            assert(v@.subrange(b as int, n as int).drop_first() =~= v@.subrange(b + 1, n as int));
        }
        b = b + 1;
    }
    let body = chars_range_string(&v, b, n);
    proof {
        assert(after.subrange(0, close - start) =~= fm);
    }
    (fields, body)
}

proof fn lemma_find_from_offset(s: Seq<char>, p: Seq<char>, off: int, i: int)
    requires
        0 <= off <= i,
        off <= s.len(),
    ensures
        find_from(s, p, i) == if find_from(s.subrange(off, s.len() as int), p, i - off) >= 0 {
            find_from(s.subrange(off, s.len() as int), p, i - off) + off
        } else {
            -1
        },
    decreases s.len() + 1 - i,
{
    let t = s.subrange(off, s.len() as int);
    if i + p.len() <= s.len() {
        assert(s.subrange(i, i + p.len()) =~= t.subrange(i - off, i - off + p.len()));
        if !crate::chars::occurs_at(s, p, i) {
            lemma_find_from_offset(s, p, off, i + 1);
        }
    }
}

// ── Skill files ──────────────────────────────────────────────────────────────

/// Length in bytes of the UTF-8 encoding, as `str::len` reports it.
pub open spec fn byte_len(s: Seq<char>) -> usize {
    encode_utf8(s).len() as usize
}

/// Value of a field, or the empty text.
pub open spec fn field_or_empty(fs: Fields, k: Seq<char>) -> Seq<char> {
    match field_get(fs, k) {
        Some(v) => v,
        None => seq![],
    }
}

/// The skill described by a `SKILL.md` text, or the reason it is refused.
/// The name comes from the frontmatter, else from the directory name.
pub open spec fn skill_spec(source: Seq<char>, content: Seq<char>, dir_name: Seq<char>) -> Result<
    SkillView,
    Seq<char>,
> {
    let fs = frontmatter(content).0;
    let body = frontmatter(content).1;
    let name = match field_get(fs, "name"@) {
        Some(n) => n,
        None => dir_name,
    };
    let d = field_or_empty(fs, "description"@);
    if !valid_skill_name(name) {
        Err(
            "invalid skill name '"@ + name
                + "': must be lowercase letters/digits/hyphens, ≤ 64 chars"@,
        )
    } else if d.len() == 0 {
        Err("skill 'description' is required and must not be empty"@)
    } else if d.len() > 1024 {
        Err("skill description exceeds 1024 chars ("@ + decimal(d.len()) + " chars)"@)
    } else {
        Ok(
            SkillView {
                name: name,
                label: match field_get(fs, "label"@) {
                    Some(l) => if l.len() > 0 {
                        Some(l)
                    } else {
                        None
                    },
                    None => None,
                },
                description: d,
                content: body,
                source: source,
                disable_model_invocation: field_get(fs, "disable-model-invocation"@) == Some(
                    "true"@,
                ),
            },
        )
    }
}

/// A skill built from a file whose frontmatter sets
/// `disable-model-invocation` to `true` is hidden from the model; with any
/// other value, or without the field, it is offered to the model.
pub proof fn law_skill_visibility_follows_frontmatter(
    source: Seq<char>,
    content: Seq<char>,
    dir_name: Seq<char>,
)
    requires
        skill_spec(source, content, dir_name) is Ok,
    ensures
        skill_spec(source, content, dir_name)->Ok_0.disable_model_invocation <==> field_get(
            frontmatter(content).0,
            "disable-model-invocation"@,
        ) == Some("true"@),
{
}

/// A skill hidden from the model adds nothing to the skills section of the
/// system prompt, wherever it stands in the list.
pub proof fn law_hidden_skill_left_out_of_prompt(a: Seq<SkillView>, k: SkillView, b: Seq<SkillView>)
    requires
        k.disable_model_invocation,
    ensures
        skills_prompt(a.push(k) + b) == skills_prompt(a + b),
{
    lemma_skill_lines_drop(a, k, b);
    lemma_any_visible_drop(a, k, b);
}

proof fn lemma_skill_lines_drop(a: Seq<SkillView>, k: SkillView, b: Seq<SkillView>)
    requires
        k.disable_model_invocation,
    ensures
        skill_lines(a.push(k) + b) == skill_lines(a + b),
    decreases b.len(),
{
    if b.len() == 0 {
        assert(a.push(k) + b =~= a.push(k));
        assert(a + b =~= a);
        assert(a.push(k).drop_last() =~= a);
    } else {
        lemma_skill_lines_drop(a, k, b.drop_last());
        assert((a.push(k) + b).drop_last() =~= a.push(k) + b.drop_last());
        assert((a + b).drop_last() =~= a + b.drop_last());
        assert((a.push(k) + b).last() == b.last());
        assert((a + b).last() == b.last());
    }
}

proof fn lemma_any_visible_drop(a: Seq<SkillView>, k: SkillView, b: Seq<SkillView>)
    requires
        k.disable_model_invocation,
    ensures
        any_visible(a.push(k) + b) == any_visible(a + b),
{
    let x = a.push(k) + b;
    let y = a + b;
    if any_visible(x) {
        let i = choose|i: int| 0 <= i < x.len() && !(#[trigger] x[i]).disable_model_invocation;
        if i < a.len() {
            assert(y[i] == x[i]);
        } else {
            assert(i > a.len());
            assert(y[i - 1] == x[i]);
        }
    }
    if any_visible(y) {
        let i = choose|i: int| 0 <= i < y.len() && !(#[trigger] y[i]).disable_model_invocation;
        if i < a.len() {
            assert(x[i] == y[i]);
        } else {
            assert(x[i + 1] == y[i]);
        }
    }
}

/// The model of a skill result.
pub open spec fn skill_result_view(r: Result<Skill, String>) -> Result<SkillView, Seq<char>> {
    match r {
        Ok(k) => Ok(k@),
        Err(e) => Err(e@),
    }
}

/// The value of field `key`.
pub fn lookup_field(fields: &Vec<(String, String)>, key: &str) -> (r: Option<String>)
    ensures
        opt_view(r) == field_get(fields_view(fields@), key@),
{
    let ghost fs = fields_view(fields@);
    let k = String::from_str(key);
    let mut i: usize = 0;
    while i < fields.len()
        invariant
            fs == fields_view(fields@),
            k@ == key@,
            i <= fields@.len(),
            key_index(fs.subrange(0, i as int), key@) == -1,
        decreases fields.len() - i,
    {
        proof {
            assert(fs.subrange(0, i + 1).drop_last() =~= fs.subrange(0, i as int));
        }
        if fields[i].0 == k {
            proof {
                lemma_key_index_prefix(fs, key@, i as int);
            }
            return Some(fields[i].1.clone());
        }
        i = i + 1;
    }
    proof {
        assert(fs.subrange(0, i as int) =~= fs);
    }
    None
}

/// Builds a skill from its file text and the name of its directory.
pub fn build_skill(source: &str, content: &str, dir_name: &str) -> (r: Result<Skill, String>)
    ensures
        skill_result_view(r) == skill_spec(source@, content@, dir_name@),
{
    let (fields, body) = parse_frontmatter(content);
    let name = match lookup_field(&fields, "name") {
        Some(n) => n,
        None => String::from_str(dir_name),
    };
    if !is_valid_skill_name(name.as_str()) {
        let mut msg = String::from_str("invalid skill name '");
        push_str(&mut msg, name.as_str());
        push_str(&mut msg, "': must be lowercase letters/digits/hyphens, ≤ 64 chars");
        return Err(msg);
    }
    let description = match lookup_field(&fields, "description") {
        Some(d) => d,
        None => String::new(),
    };
    if description.as_str().is_empty() {
        return Err(String::from_str("skill 'description' is required and must not be empty"));
    }
    let dchars = crate::text::str_chars(description.as_str());
    let clen = dchars.len();
    if clen > 1024 {
        let mut msg = String::from_str("skill description exceeds 1024 chars (");
        let num = u64_text(clen as u64);
        push_str(&mut msg, num.as_str());
        push_str(&mut msg, " chars)");
        return Err(msg);
    }
    let label = match lookup_field(&fields, "label") {
        Some(l) => if l.as_str().is_empty() {
            None
        } else {
            Some(l)
        },
        None => None,
    };
    let true_text = String::from_str("true");
    let disable = match lookup_field(&fields, "disable-model-invocation") {
        Some(v) => v == true_text,
        None => false,
    };
    proof {
        reveal_strlit("true");
    }
    let skill = Skill {
        name,
        label,
        description,
        content: body,
        source: String::from_str(source),
        disable_model_invocation: disable,
    };
    Ok(skill)
}

/// The final component of a path (`Path::file_name`, when it is valid text).
pub uninterp spec fn path_file_name(p: Seq<char>) -> Option<Seq<char>>;

/// `Path::file_name` of `p` as text; the result is named, not described.
#[verifier::external_body]
fn file_name_of(p: &str) -> (r: Option<String>)
    ensures
        opt_view(r) == path_file_name(p@),
{
    let n = std::path::Path::new(p).file_name()?;
    Some(n.to_str()?.to_string())
}

/// The final component of a path as text.
pub fn file_name_text(p: &str) -> (r: Option<String>)
    ensures
        opt_view(r) == path_file_name(p@),
{
    file_name_of(p)
}

/// The directory name a skill falls back on.
pub open spec fn dir_name_of(dir: Seq<char>) -> Seq<char> {
    match path_file_name(dir) {
        Some(n) => n,
        None => seq![],
    }
}

/// Parses a `SKILL.md` file found in directory `dir`.
pub fn parse_skill_file(source: &str, content: &str, dir: &str) -> (r: Result<Skill, String>)
    ensures
        skill_result_view(r) == skill_spec(source@, content@, dir_name_of(dir@)),
{
    let dir_name = match file_name_of(dir) {
        Some(n) => n,
        None => String::new(),
    };
    build_skill(source, content, dir_name.as_str())
}

// ── Template files ───────────────────────────────────────────────────────────

/// The first line of `s` (up to a newline) whose trimmed text is not empty,
/// trimmed; empty when there is none.
pub open spec fn first_nonblank_line(s: Seq<char>) -> Seq<char>
    decreases s.len(),
{
    let nl = find_char(s, '\n');
    let line = if nl >= 0 {
        s.subrange(0, nl)
    } else {
        s
    };
    if trim(line).len() > 0 {
        trim(line)
    } else if 0 <= nl < s.len() {
        first_nonblank_line(s.subrange(nl + 1, s.len() as int))
    } else {
        seq![]
    }
}

/// The description of a template: its frontmatter `description`, else its
/// first non-blank body line, cut to 60 characters plus `...` when longer.
pub open spec fn template_description(content: Seq<char>) -> Seq<char> {
    let d = field_or_empty(frontmatter(content).0, "description"@);
    let l = first_nonblank_line(frontmatter(content).1);
    if d.len() > 0 {
        d
    } else if l.len() > 60 {
        l.subrange(0, 60) + "..."@
    } else {
        l
    }
}

/// Model of a [`PromptTemplate`]: name, description, content, source.
pub open spec fn template_view(t: PromptTemplate) -> (Seq<char>, Seq<char>, Seq<char>, Seq<char>) {
    (t.name@, t.description@, t.content@, t.source@)
}

fn first_nonblank(v: &Vec<char>, from: usize) -> (r: String)
    requires
        from <= v@.len(),
    ensures
        r@ == first_nonblank_line(v@.subrange(from as int, v@.len() as int)),
{
    let n = v.len();
    let mut p = from;
    while p < n
        invariant
            from <= p <= n,
            n == v@.len(),
            first_nonblank_line(v@.subrange(from as int, n as int)) == first_nonblank_line(
                v@.subrange(p as int, n as int),
            ),
        decreases n - p,
    {
        let ghost s = v@.subrange(p as int, n as int);
        let e = match find_char_in(v, p, n, '\n') {
            Some(e) => e,
            None => n,
        };
        proof {
            assert(v@.subrange(p as int, e as int) =~= if find_char(s, '\n') >= 0 {
                s.subrange(0, find_char(s, '\n'))
            } else {
                s
            });
        }
        let (lo, hi) = trim_range(v, p, e);
        if lo < hi {
            return chars_range_string(v, lo, hi);
        }
        if e >= n {
            return String::new();
        }
        proof {
            assert(s.subrange(e - p + 1, s.len() as int) =~= v@.subrange(e + 1, n as int));
        }
        p = e + 1;
    }
    proof {
        assert(v@.subrange(p as int, n as int) =~= Seq::<char>::empty());
        assert(find_char(Seq::<char>::empty(), '\n') == -1);
        assert(trim(Seq::<char>::empty()) =~= Seq::<char>::empty());
    }
    String::new()
}

/// Builds a prompt template from its name, file text and path.
pub fn parse_prompt_template(name: String, content: &str, source: String) -> (t: PromptTemplate)
    ensures
        t.name@ == name@,
        t.description@ == template_description(content@),
        t.content@ == frontmatter(content@).1,
        t.source@ == source@,
{
    let (fields, body) = parse_frontmatter(content);
    let d = match lookup_field(&fields, "description") {
        Some(d) => d,
        None => String::new(),
    };
    let description = if !d.as_str().is_empty() {
        d
    } else {
        let bv = str_chars(body.as_str());
        let line = first_nonblank(&bv, 0);
        proof {
            assert(bv@.subrange(0, bv@.len() as int) =~= body@);
        }
        let lv = str_chars(line.as_str());
        if lv.len() > 60 {
            let mut out = chars_range_string(&lv, 0, 60);
            push_str(&mut out, "...");
            out
        } else {
            line
        }
    };
    PromptTemplate { name, description, content: body, source }
}

// ── Collecting skills and templates from listed directories ─────────────────

/// One entry of a skills directory, with the text of its `SKILL.md` when
/// that file could be read.
#[derive(Debug)]
pub struct SkillCandidate {
    /// Path of the entry.
    pub path: String,
    /// The entry is a directory.
    pub is_dir: bool,
    /// Path of the entry's `SKILL.md`.
    pub skill_file: String,
    /// Text of the `SKILL.md`, when it could be read.
    pub content: Option<String>,
}

/// A skills directory with its tag and its listing (or the listing error).
#[derive(Debug)]
pub struct SkillDirListing {
    pub tag: String,
    pub dir: String,
    pub entries: Result<Vec<SkillCandidate>, EnvError>,
}

/// Model of a diagnostic: source, level, message.
pub type DiagView = (Seq<char>, DiagnosticLevel, Seq<char>);

pub open spec fn diag_view(d: SkillDiagnostic) -> DiagView {
    (d.source@, d.level, d.message@)
}

pub open spec fn sourced_view(s: SourcedSkill) -> (SkillView, Seq<char>) {
    (s.skill@, s.source_tag@)
}

/// What one candidate contributes: a skill, a diagnostic, or nothing (not a
/// directory, or no readable `SKILL.md`).
pub open spec fn candidate_outcome(tag: Seq<char>, c: SkillCandidate) -> (
    Seq<(SkillView, Seq<char>)>,
    Seq<DiagView>,
) {
    if !c.is_dir {
        (seq![], seq![])
    } else {
        match c.content {
            None => (seq![], seq![]),
            Some(text) => match skill_spec(c.skill_file@, text@, dir_name_of(c.path@)) {
                Ok(k) => (seq![(k, tag)], seq![]),
                Err(m) => (seq![], seq![(c.skill_file@, DiagnosticLevel::Warn, m)]),
            },
        }
    }
}

/// What a run of candidates contributes, in order.
pub open spec fn candidates_outcome(tag: Seq<char>, cs: Seq<SkillCandidate>) -> (
    Seq<(SkillView, Seq<char>)>,
    Seq<DiagView>,
)
    decreases cs.len(),
{
    if cs.len() == 0 {
        (seq![], seq![])
    } else {
        let a = candidates_outcome(tag, cs.drop_last());
        let b = candidate_outcome(tag, cs.last());
        (a.0 + b.0, a.1 + b.1)
    }
}

/// What one listed directory contributes.
pub open spec fn listing_outcome(l: SkillDirListing) -> (
    Seq<(SkillView, Seq<char>)>,
    Seq<DiagView>,
) {
    match l.entries {
        Err(e) => (
            seq![],
            seq![(l.dir@, DiagnosticLevel::Warn, "failed to list skills directory: "@ + e.text())],
        ),
        Ok(cs) => candidates_outcome(l.tag@, cs@),
    }
}

/// What all listed directories contribute, in order.
pub open spec fn listings_outcome(ls: Seq<SkillDirListing>) -> (
    Seq<(SkillView, Seq<char>)>,
    Seq<DiagView>,
)
    decreases ls.len(),
{
    if ls.len() == 0 {
        (seq![], seq![])
    } else {
        let a = listings_outcome(ls.drop_last());
        let b = listing_outcome(ls.last());
        (a.0 + b.0, a.1 + b.1)
    }
}

/// Loads the skills of listed skills directories: each subdirectory with a
/// readable `SKILL.md` gives a skill tagged with its directory's tag, or a
/// warning when the file is refused; an unlistable directory gives a warning.
pub fn collect_skills(listings: &[SkillDirListing]) -> (r: (Vec<SourcedSkill>, Vec<SkillDiagnostic>))
    ensures
        (r.0@.map_values(|s: SourcedSkill| sourced_view(s)), r.1@.map_values(
            |d: SkillDiagnostic| diag_view(d),
        )) == listings_outcome(listings@),
{
    let mut skills: Vec<SourcedSkill> = Vec::new();
    let mut diags: Vec<SkillDiagnostic> = Vec::new();
    let mut i: usize = 0;
    while i < listings.len()
        invariant
            i <= listings@.len(),
            (skills@.map_values(|s: SourcedSkill| sourced_view(s)), diags@.map_values(
                |d: SkillDiagnostic| diag_view(d),
            )) == listings_outcome(listings@.subrange(0, i as int)),
        decreases listings.len() - i,
    {
        proof {
            assert(listings@.subrange(0, i + 1).drop_last() =~= listings@.subrange(0, i as int));
        }
        let l = &listings[i];
        let ghost s0 = skills@.map_values(|s: SourcedSkill| sourced_view(s));
        let ghost d0 = diags@.map_values(|d: SkillDiagnostic| diag_view(d));
        match &l.entries {
            Err(e) => {
                let mut msg = String::from_str("failed to list skills directory: ");
                let em = e.message();
                push_str(&mut msg, em.as_str());
                diags.push(
                    SkillDiagnostic { source: l.dir.clone(), level: DiagnosticLevel::Warn, message: msg },
                );
                proof {
                    assert(skills@.map_values(|s: SourcedSkill| sourced_view(s)) =~= s0 + Seq::<
                        (SkillView, Seq<char>),
                    >::empty());
                    assert(diags@.map_values(|d: SkillDiagnostic| diag_view(d)) =~= d0
                        + listing_outcome(listings@[i as int]).1);
                }
            },
            Ok(cs) => {
                let mut k: usize = 0;
                proof {
                    assert(cs@.subrange(0, 0) =~= Seq::<SkillCandidate>::empty());
                    assert(s0 + Seq::<(SkillView, Seq<char>)>::empty() =~= s0);
                    assert(d0 + Seq::<DiagView>::empty() =~= d0);
                }
                while k < cs.len()
                    invariant
                        k <= cs@.len(),
                        ({
                            let o = candidates_outcome(l.tag@, cs@.subrange(0, k as int));
                            &&& skills@.map_values(|s: SourcedSkill| sourced_view(s)) == s0 + o.0
                            &&& diags@.map_values(|d: SkillDiagnostic| diag_view(d)) == d0 + o.1
                        }),
                    decreases cs.len() - k,
                {
                    proof {
                        assert(cs@.subrange(0, k + 1).drop_last() =~= cs@.subrange(0, k as int));
                    }
                    let c = &cs[k];
                    let ghost s1 = skills@.map_values(|s: SourcedSkill| sourced_view(s));
                    let ghost d1 = diags@.map_values(|d: SkillDiagnostic| diag_view(d));
                    let ghost o = candidate_outcome(l.tag@, cs@[k as int]);
                    if c.is_dir {
                        if let Some(text) = &c.content {
                            match parse_skill_file(c.skill_file.as_str(), text.as_str(), c.path.as_str()) {
                                Ok(skill) => {
                                    skills.push(SourcedSkill { skill, source_tag: l.tag.clone() });
                                    proof {
                                        assert(skills@.map_values(|s: SourcedSkill| sourced_view(s))
                                            =~= s1 + o.0);
                                        assert(d1 =~= d1 + o.1);
                                    }
                                },
                                Err(m) => {
                                    diags.push(
                                        SkillDiagnostic {
                                            source: c.skill_file.clone(),
                                            level: DiagnosticLevel::Warn,
                                            message: m,
                                        },
                                    );
                                    proof {
                                        assert(diags@.map_values(|d: SkillDiagnostic| diag_view(d))
                                            =~= d1 + o.1);
                                        assert(s1 =~= s1 + o.0);
                                    }
                                },
                            }
                        } else {
                            proof {
                                assert(s1 =~= s1 + o.0);
                                assert(d1 =~= d1 + o.1);
                            }
                        }
                    } else {
                        proof {
                            assert(s1 =~= s1 + o.0);
                            assert(d1 =~= d1 + o.1);
                        }
                    }
                    proof {
                        let p = candidates_outcome(l.tag@, cs@.subrange(0, k as int));
                        assert(s0 + p.0 + o.0 =~= s0 + (p.0 + o.0));
                        assert(d0 + p.1 + o.1 =~= d0 + (p.1 + o.1));
                    }
                    k = k + 1;
                }
                proof {
                    assert(cs@.subrange(0, k as int) =~= cs@);
                }
            },
        }
        proof {
            let p = listings_outcome(listings@.subrange(0, i as int));
            let b = listing_outcome(listings@[i as int]);
            assert(skills@.map_values(|s: SourcedSkill| sourced_view(s)) =~= p.0 + b.0);
            assert(diags@.map_values(|d: SkillDiagnostic| diag_view(d)) =~= p.1 + b.1);
        }
        i = i + 1;
    }
    proof {
        assert(listings@.subrange(0, i as int) =~= listings@);
    }
    (skills, diags)
}

/// The skills without their tags.
pub fn untag_skills(sourced: &[SourcedSkill]) -> (r: Vec<Skill>)
    ensures
        r@.map_values(|k: Skill| k@) == sourced@.map_values(|s: SourcedSkill| s.skill@),
{
    let mut out: Vec<Skill> = Vec::new();
    let mut i: usize = 0;
    while i < sourced.len()
        invariant
            i <= sourced@.len(),
            out@.map_values(|k: Skill| k@) == sourced@.subrange(0, i as int).map_values(
                |s: SourcedSkill| s.skill@,
            ),
        decreases sourced.len() - i,
    {
        let ghost before = out@;
        let k = sourced[i].skill.clone();
        let ghost kv = k@;
        out.push(k);
        proof {
            assert(kv == sourced@[i as int].skill@);
            assert(out@.map_values(|k: Skill| k@) =~= before.map_values(|k: Skill| k@).push(kv));
            assert(out@.map_values(|k: Skill| k@) =~= sourced@.subrange(0, i + 1).map_values(
                |s: SourcedSkill| s.skill@,
            ));
        }
        i = i + 1;
    }
    proof {
        assert(sourced@.subrange(0, i as int) =~= sourced@);
    }
    out
}

/// The extension of a path (`Path::extension`, when it is valid text).
pub uninterp spec fn path_extension(p: Seq<char>) -> Option<Seq<char>>;

/// The file name of a path without its extension (`Path::file_stem`, when
/// it is valid text).
pub uninterp spec fn path_file_stem(p: Seq<char>) -> Option<Seq<char>>;

/// `Path::extension` of `p` as text; the result is named, not described.
#[verifier::external_body]
fn extension_of(p: &str) -> (r: Option<String>)
    ensures
        opt_view(r) == path_extension(p@),
{
    let e = std::path::Path::new(p).extension()?;
    Some(e.to_str()?.to_string())
}

/// `Path::file_stem` of `p` as text; the result is named, not described.
#[verifier::external_body]
fn file_stem_of(p: &str) -> (r: Option<String>)
    ensures
        opt_view(r) == path_file_stem(p@),
{
    let e = std::path::Path::new(p).file_stem()?;
    Some(e.to_str()?.to_string())
}

/// One entry of a templates directory with the result of reading it.
#[derive(Debug)]
pub struct TemplateCandidate {
    pub path: String,
    pub is_dir: bool,
    pub content: Result<String, EnvError>,
}

/// A templates directory with its listing (or the listing error).
#[derive(Debug)]
pub struct TemplateDirListing {
    pub dir: String,
    pub entries: Result<Vec<TemplateCandidate>, EnvError>,
}

/// What one candidate contributes: a template for a readable `.md` file, a
/// warning for an unreadable one, nothing otherwise.
pub open spec fn template_outcome(c: TemplateCandidate) -> (
    Seq<(Seq<char>, Seq<char>, Seq<char>, Seq<char>)>,
    Seq<DiagView>,
) {
    if c.is_dir || path_extension(c.path@) != Some("md"@) {
        (seq![], seq![])
    } else {
        match path_file_stem(c.path@) {
            None => (seq![], seq![]),
            Some(name) => match c.content {
                Err(e) => (
                    seq![],
                    seq![(c.path@, DiagnosticLevel::Warn, "failed to read template file: "@ + e.text())],
                ),
                Ok(t) => (
                    seq![(name, template_description(t@), frontmatter(t@).1, c.path@)],
                    seq![],
                ),
            },
        }
    }
}

pub open spec fn templates_outcome(cs: Seq<TemplateCandidate>) -> (
    Seq<(Seq<char>, Seq<char>, Seq<char>, Seq<char>)>,
    Seq<DiagView>,
)
    decreases cs.len(),
{
    if cs.len() == 0 {
        (seq![], seq![])
    } else {
        let a = templates_outcome(cs.drop_last());
        let b = template_outcome(cs.last());
        (a.0 + b.0, a.1 + b.1)
    }
}

pub open spec fn template_listing_outcome(l: TemplateDirListing) -> (
    Seq<(Seq<char>, Seq<char>, Seq<char>, Seq<char>)>,
    Seq<DiagView>,
) {
    match l.entries {
        Err(e) => (
            seq![],
            seq![(l.dir@, DiagnosticLevel::Warn, "failed to list templates directory: "@ + e.text())],
        ),
        Ok(cs) => templates_outcome(cs@),
    }
}

pub open spec fn template_listings_outcome(ls: Seq<TemplateDirListing>) -> (
    Seq<(Seq<char>, Seq<char>, Seq<char>, Seq<char>)>,
    Seq<DiagView>,
)
    decreases ls.len(),
{
    if ls.len() == 0 {
        (seq![], seq![])
    } else {
        let a = template_listings_outcome(ls.drop_last());
        let b = template_listing_outcome(ls.last());
        (a.0 + b.0, a.1 + b.1)
    }
}

/// Loads the prompt templates of listed directories: every readable `.md`
/// file (not a directory) gives a template named after its file stem; an
/// unreadable file or unlistable directory gives a warning.
pub fn collect_prompt_templates(listings: &[TemplateDirListing]) -> (r: (
    Vec<PromptTemplate>,
    Vec<SkillDiagnostic>,
))
    ensures
        (r.0@.map_values(|t: PromptTemplate| template_view(t)), r.1@.map_values(
            |d: SkillDiagnostic| diag_view(d),
        )) == template_listings_outcome(listings@),
{
    let mut out: Vec<PromptTemplate> = Vec::new();
    let mut diags: Vec<SkillDiagnostic> = Vec::new();
    let md = String::from_str("md");
    let mut i: usize = 0;
    while i < listings.len()
        invariant
            i <= listings@.len(),
            md@ == "md"@,
            (out@.map_values(|t: PromptTemplate| template_view(t)), diags@.map_values(
                |d: SkillDiagnostic| diag_view(d),
            )) == template_listings_outcome(listings@.subrange(0, i as int)),
        decreases listings.len() - i,
    {
        proof {
            assert(listings@.subrange(0, i + 1).drop_last() =~= listings@.subrange(0, i as int));
        }
        let l = &listings[i];
        let ghost s0 = out@.map_values(|t: PromptTemplate| template_view(t));
        let ghost d0 = diags@.map_values(|d: SkillDiagnostic| diag_view(d));
        match &l.entries {
            Err(e) => {
                let mut msg = String::from_str("failed to list templates directory: ");
                let em = e.message();
                push_str(&mut msg, em.as_str());
                diags.push(
                    SkillDiagnostic { source: l.dir.clone(), level: DiagnosticLevel::Warn, message: msg },
                );
                proof {
                    assert(out@.map_values(|t: PromptTemplate| template_view(t)) =~= s0
                        + template_listing_outcome(listings@[i as int]).0);
                    assert(diags@.map_values(|d: SkillDiagnostic| diag_view(d)) =~= d0
                        + template_listing_outcome(listings@[i as int]).1);
                }
            },
            Ok(cs) => {
                let mut k: usize = 0;
                proof {
                    assert(cs@.subrange(0, 0) =~= Seq::<TemplateCandidate>::empty());
                    assert(s0 + Seq::<(Seq<char>, Seq<char>, Seq<char>, Seq<char>)>::empty() =~= s0);
                    assert(d0 + Seq::<DiagView>::empty() =~= d0);
                }
                while k < cs.len()
                    invariant
                        k <= cs@.len(),
                        md@ == "md"@,
                        ({
                            let o = templates_outcome(cs@.subrange(0, k as int));
                            &&& out@.map_values(|t: PromptTemplate| template_view(t)) == s0 + o.0
                            &&& diags@.map_values(|d: SkillDiagnostic| diag_view(d)) == d0 + o.1
                        }),
                    decreases cs.len() - k,
                {
                    proof {
                        assert(cs@.subrange(0, k + 1).drop_last() =~= cs@.subrange(0, k as int));
                    }
                    let c = &cs[k];
                    let ghost s1 = out@.map_values(|t: PromptTemplate| template_view(t));
                    let ghost d1 = diags@.map_values(|d: SkillDiagnostic| diag_view(d));
                    let ghost o = template_outcome(cs@[k as int]);
                    let mut added = false;
                    if !c.is_dir {
                        let is_md = match extension_of(c.path.as_str()) {
                            Some(e) => e == md,
                            None => false,
                        };
                        if is_md {
                            if let Some(name) = file_stem_of(c.path.as_str()) {
                                match &c.content {
                                    Err(e) => {
                                        let mut msg = String::from_str(
                                            "failed to read template file: ",
                                        );
                                        let em = e.message();
                                        push_str(&mut msg, em.as_str());
                                        diags.push(
                                            SkillDiagnostic {
                                                source: c.path.clone(),
                                                level: DiagnosticLevel::Warn,
                                                message: msg,
                                            },
                                        );
                                        proof {
                                            assert(diags@.map_values(
                                                |d: SkillDiagnostic| diag_view(d),
                                            ) =~= d1 + o.1);
                                            assert(s1 =~= s1 + o.0);
                                        }
                                        added = true;
                                    },
                                    Ok(t) => {
                                        let tp = parse_prompt_template(
                                            name,
                                            t.as_str(),
                                            c.path.clone(),
                                        );
                                        out.push(tp);
                                        proof {
                                            assert(out@.map_values(
                                                |t: PromptTemplate| template_view(t),
                                            ) =~= s1 + o.0);
                                            assert(d1 =~= d1 + o.1);
                                        }
                                        added = true;
                                    },
                                }
                            }
                        }
                    }
                    if !added {
                        proof {
                            assert(s1 =~= s1 + o.0);
                            assert(d1 =~= d1 + o.1);
                        }
                    }
                    proof {
                        let p = templates_outcome(cs@.subrange(0, k as int));
                        assert(s0 + p.0 + o.0 =~= s0 + (p.0 + o.0));
                        assert(d0 + p.1 + o.1 =~= d0 + (p.1 + o.1));
                    }
                    k = k + 1;
                }
                proof {
                    assert(cs@.subrange(0, k as int) =~= cs@);
                }
            },
        }
        proof {
            let p = template_listings_outcome(listings@.subrange(0, i as int));
            let b = template_listing_outcome(listings@[i as int]);
            assert(out@.map_values(|t: PromptTemplate| template_view(t)) =~= p.0 + b.0);
            assert(diags@.map_values(|d: SkillDiagnostic| diag_view(d)) =~= p.1 + b.1);
        }
        i = i + 1;
    }
    proof {
        assert(listings@.subrange(0, i as int) =~= listings@);
    }
    (out, diags)
}

} // verus!

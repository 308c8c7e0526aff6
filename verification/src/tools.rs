//! The coding tools' own logic: shell output and file text formatting with
//! their truncation rules, size rendering, shell quoting, edit checks, path
//! rendering, include-glob and line matching for search, and tool selection.
use vstd::prelude::*;
use vstd::string::StringSliceAdditionalSpecFns;
use vstd::utf8::{decode_utf8, encode_utf8, is_char_boundary};
use crate::chars::{find_from, join, join_strings, split_lines, split_newlines};
use crate::errors::ToolError;
use crate::skills::byte_len;
use crate::text::{decimal, digit_char, i64_text, push_char, push_str, signed_decimal, u64_text};
use crate::types::ShellOutput;

verus! {

// ── Shell output ─────────────────────────────────────────────────────────────

/// Most bytes of shell output kept.
pub const MAX_OUTPUT_BYTES: usize = 100 * 1024;

/// The largest character boundary of `bytes` at or below `i` (0 at worst).
pub open spec fn floor_boundary(bytes: Seq<u8>, i: int) -> int
    decreases i,
{
    if i <= 0 {
        0
    } else if is_char_boundary(bytes, i) {
        i
    } else {
        floor_boundary(bytes, i - 1)
    }
}

/// The text of a shell run: stdout then stderr, cut to at most
/// [`MAX_OUTPUT_BYTES`] (at the last character boundary within that many
/// bytes) with a note of the bytes left out, and the exit code noted when it
/// is not zero.
pub open spec fn shell_text(stdout: Seq<char>, stderr: Seq<char>, exit_code: i32) -> Seq<char> {
    let c = stdout + stderr;
    let cut = floor_boundary(encode_utf8(c), MAX_OUTPUT_BYTES as int);
    let t = if byte_len(c) > MAX_OUTPUT_BYTES {
        decode_utf8(encode_utf8(c).subrange(0, cut)) + "\n[Output truncated: "@ + decimal(
            (byte_len(c) - cut) as nat,
        ) + " bytes omitted]"@
    } else {
        c
    };
    if exit_code != 0 {
        t + "\n[Exit code: "@ + signed_decimal(exit_code as int) + "]"@
    } else {
        t
    }
}

/// Combines stdout and stderr, truncates, and notes a non-zero exit code.
pub fn format_output(output: &ShellOutput) -> (r: String)
    ensures
        r@ == shell_text(output.stdout@, output.stderr@, output.exit_code),
{
    let mut combined = output.stdout.clone();
    push_str(&mut combined, output.stderr.as_str());
    let cs = combined.as_str();
    proof {
        assert(cs.spec_bytes() == encode_utf8(combined@));
        vstd::utf8::encode_utf8_valid_utf8(combined@);
        vstd::utf8::is_char_boundary_start_end_of_seq(encode_utf8(combined@));
    }
    let total = cs.len();
    let mut text = if total > MAX_OUTPUT_BYTES {
        let mut cut: usize = MAX_OUTPUT_BYTES;
        while cut > 0 && !cs.is_char_boundary(cut)
            invariant
                cut <= MAX_OUTPUT_BYTES,
                cs.spec_bytes() == encode_utf8(combined@),
                floor_boundary(encode_utf8(combined@), cut as int) == floor_boundary(
                    encode_utf8(combined@),
                    MAX_OUTPUT_BYTES as int,
                ),
            decreases cut,
        {
            cut = cut - 1;
        }
        proof {
            assert(is_char_boundary(encode_utf8(combined@), cut as int));
            assert(floor_boundary(encode_utf8(combined@), cut as int) == cut);
        }
        let (head, _rest) = cs.split_at(cut);
        let mut t = head.to_owned();
        push_str(&mut t, "\n[Output truncated: ");
        let n = u64_text((total - cut) as u64);
        push_str(&mut t, n.as_str());
        push_str(&mut t, " bytes omitted]");
        proof {
            vstd::utf8::encode_utf8_decode_utf8(head@);
            assert(head.spec_bytes() == encode_utf8(head@));
            assert(encode_utf8(head@) =~= encode_utf8(combined@).subrange(0, cut as int));
        }
        t
    } else {
        combined.clone()
    };
    if output.exit_code != 0 {
        push_str(&mut text, "\n[Exit code: ");
        let e = i64_text(output.exit_code as i64);
        push_str(&mut text, e.as_str());
        push_str(&mut text, "]");
    }
    text
}

// ── File text ────────────────────────────────────────────────────────────────

/// Most lines shown from a file.
pub const MAX_LINES: usize = 2000;

/// Most bytes shown from a file.
pub const MAX_BYTES: usize = 100 * 1024;

/// The first position `k` from which, counting each line's bytes and its
/// newline, the running total exceeds [`MAX_BYTES`].
pub open spec fn byte_overflow_at(lines: Seq<Seq<char>>, k: int, acc: int) -> Option<int>
    decreases lines.len() - k,
{
    if k < 0 || k >= lines.len() {
        None
    } else {
        let a = acc + byte_len(lines[k]) + 1;
        if a > MAX_BYTES {
            Some(k)
        } else {
            byte_overflow_at(lines, k + 1, a)
        }
    }
}

/// The continuation notice.
pub open spec fn more_lines_note(remaining: int, next: int) -> Seq<char> {
    "\n\n["@ + decimal(remaining as nat) + " more lines. Use offset="@ + decimal(next as nat)
        + " to continue.]"@
}

/// The shown part of a file: lines (split at `'\n'`) from the 1-based
/// `offset`, at most `limit` of them, at most [`MAX_LINES`], cut before the
/// line that takes the total past [`MAX_BYTES`]; a notice tells where to
/// continue when lines were left out. An offset past the end gives a notice
/// alone.
pub open spec fn text_window(content: Seq<char>, offset: Option<usize>, limit: Option<usize>) -> Seq<
    char,
> {
    let all = split_lines(content);
    let total = all.len() as int;
    let start: int = match offset {
        Some(o) => if o >= 1 {
            o - 1
        } else {
            0
        },
        None => 0,
    };
    if start >= total {
        "[Offset "@ + decimal(
            match offset {
                Some(o) => o as nat,
                None => 1,
            },
        ) + " is beyond end of file ("@ + decimal(total as nat) + " lines total)]"@
    } else {
        let end: int = match limit {
            Some(l) => if start + l < total {
                start + l
            } else {
                total
            },
            None => total,
        };
        let sel = all.subrange(start, end);
        let by_lines = sel.len() > MAX_LINES;
        let lines = if by_lines {
            sel.subrange(0, MAX_LINES as int)
        } else {
            sel
        };
        let cut = byte_overflow_at(lines, 0, 0);
        let shown = match cut {
            Some(n) => lines.subrange(0, n),
            None => lines,
        };
        let truncated = cut is Some || by_lines;
        let out_end = start + shown.len();
        let text = join(shown, seq!['\n']);
        if truncated {
            text + more_lines_note(total - out_end, out_end + 1)
        } else if end < total {
            text + more_lines_note(total - end, end + 1)
        } else {
            text
        }
    }
}

proof fn lemma_byte_overflow_bounds(lines: Seq<Seq<char>>, k: int, acc: int)
    requires
        0 <= k,
    ensures
        match byte_overflow_at(lines, k, acc) {
            Some(n) => k <= n < lines.len(),
            None => true,
        },
    decreases lines.len() - k,
{
    if k < lines.len() && acc + byte_len(lines[k]) + 1 <= MAX_BYTES {
        lemma_byte_overflow_bounds(lines, k + 1, acc + byte_len(lines[k]) + 1);
    }
}

fn note(remaining: usize, next: usize) -> (r: String)
    ensures
        r@ == more_lines_note(remaining as int, next as int),
{
    let mut s = String::from_str("\n\n[");
    let a = u64_text(remaining as u64);
    push_str(&mut s, a.as_str());
    push_str(&mut s, " more lines. Use offset=");
    let b = u64_text(next as u64);
    push_str(&mut s, b.as_str());
    push_str(&mut s, " to continue.]");
    s
}

/// Selects lines by 1-based offset and limit and applies the line and byte
/// caps, with a continuation notice when lines were left out.
#[verifier::rlimit(50)]
pub fn format_text_output(content: &str, offset: Option<usize>, limit: Option<usize>) -> (r: String)
    ensures
        r@ == text_window(content@, offset, limit),
{
    let all = split_newlines(content);
    let ghost av = all@.map_values(|s: String| s@);
    let total = all.len();
    let start: usize = match offset {
        Some(o) => if o >= 1 {
            o - 1
        } else {
            0
        },
        None => 0,
    };
    if start >= total {
        let mut s = String::from_str("[Offset ");
        let o: usize = match offset {
            Some(o) => o,
            None => 1,
        };
        let a = u64_text(o as u64);
        push_str(&mut s, a.as_str());
        push_str(&mut s, " is beyond end of file (");
        let b = u64_text(total as u64);
        push_str(&mut s, b.as_str());
        push_str(&mut s, " lines total)]");
        return s;
    }
    let end: usize = match limit {
        Some(l) => if l < total - start {
            start + l
        } else {
            total
        },
        None => total,
    };
    let sel_len = end - start;
    let by_lines = sel_len > MAX_LINES;
    let lines_len: usize = if by_lines {
        MAX_LINES
    } else {
        sel_len
    };
    let ghost sel = av.subrange(start as int, end as int);
    let ghost lines = if by_lines {
        sel.subrange(0, MAX_LINES as int)
    } else {
        sel
    };
    proof {
        assert(lines.len() == lines_len);
        assert forall|j: int| 0 <= j < lines_len implies #[trigger] lines[j] == av[start + j] by {}
    }
    // Byte cap.
    let mut acc: u128 = 0;
    let mut k: usize = 0;
    let mut cut: Option<usize> = None;
    proof {
        lemma_byte_overflow_bounds(lines, 0, 0);
    }
    while k < lines_len
        invariant_except_break
            cut is None,
            byte_overflow_at(lines, 0, 0) == byte_overflow_at(lines, k as int, acc as int),
        invariant
            k <= lines_len,
            lines.len() == lines_len,
            start + lines_len <= total,
            av == all@.map_values(|s: String| s@),
            total == av.len(),
            forall|j: int| 0 <= j < lines_len ==> #[trigger] lines[j] == av[start + j],
            acc <= MAX_BYTES,
        ensures
            match cut {
                Some(n) => byte_overflow_at(lines, 0, 0) == Some(n as int) && n < lines_len,
                None => byte_overflow_at(lines, 0, 0) is None,
            },
        decreases lines_len - k,
    {
        let ls = all[start + k].as_str();
        proof {
            assert(av[start + k] == all@[start + k]@);
            assert(ls@ == lines[k as int]);
            assert(ls.spec_bytes() == encode_utf8(ls@));
        }
        let b = ls.len();
        assert(b == byte_len(lines[k as int]));
        let a: u128 = acc + (b as u128) + 1;
        if a > (MAX_BYTES as u128) {
            cut = Some(k);
            break;
        }
        acc = a;
        k = k + 1;
    }
    let ghost cutv = byte_overflow_at(lines, 0, 0);
    let shown_len: usize = match cut {
        Some(n) => n,
        None => lines_len,
    };
    let truncated = cut.is_some() || by_lines;
    let mut parts: Vec<String> = Vec::new();
    let mut j: usize = 0;
    while j < shown_len
        invariant
            j <= shown_len <= lines_len,
            lines.len() == lines_len,
            start + lines_len <= total,
            av == all@.map_values(|s: String| s@),
            total == av.len(),
            forall|t: int| 0 <= t < lines_len ==> #[trigger] lines[t] == av[start + t],
            parts@.map_values(|s: String| s@) == lines.subrange(0, j as int),
        decreases shown_len - j,
    {
        let ghost before = parts@.map_values(|s: String| s@);
        let s = all[start + j].clone();
        proof {
            assert(av[start + j] == all@[start + j]@);
            assert(s@ == lines[j as int]);
        }
        let ghost sv = s@;
        parts.push(s);
        proof {
            assert(parts@.map_values(|s: String| s@) =~= before.push(sv));
            assert(parts@.map_values(|s: String| s@) =~= lines.subrange(0, j + 1));
        }
        j = j + 1;
    }
    let mut text = join_strings(parts.as_slice(), "\n");
    proof {
        reveal_strlit("\n");
        assert("\n"@ =~= seq!['\n']);
        assert(cutv == match cut {
            Some(n) => Some(n as int),
            None => None::<int>,
        });
    }
    proof {
        assert(lines.subrange(0, lines_len as int) =~= lines);
        assert(parts@.map_values(|s: String| s@) == match cutv {
            Some(n) => lines.subrange(0, n),
            None => lines,
        });
    }
    let out_end = start + shown_len;
    if truncated {
        let n = note(total - out_end, out_end + 1);
        push_str(&mut text, n.as_str());
    } else if end < total {
        let n = note(total - end, end + 1);
        push_str(&mut text, n.as_str());
    }
    text
}

// ── Sizes ────────────────────────────────────────────────────────────────────

/// `n / d` in tenths, rounded to nearest with ties to even.
pub open spec fn tenths(n: nat, d: nat) -> nat {
    let q = (n * 10) / d;
    let r = (n * 10) % d;
    if 2 * r > d || (2 * r == d && q % 2 == 1) {
        q + 1
    } else {
        q
    }
}

/// A number of tenths with one decimal.
pub open spec fn one_decimal(t: nat) -> Seq<char> {
    decimal(t / 10) + seq!['.', digit_char((t % 10) as int)]
}

/// A byte count for display: bytes below 1024, else kilobytes below one
/// mebibyte, else megabytes, with one decimal (the exact quotient rounded
/// to nearest, ties to even).
pub open spec fn size_text(bytes: nat) -> Seq<char> {
    if bytes < 1024 {
        decimal(bytes) + seq!['B']
    } else if bytes < 1024 * 1024 {
        one_decimal(tenths(bytes, 1024)) + seq!['K', 'B']
    } else {
        one_decimal(tenths(bytes, 1024 * 1024)) + seq!['M', 'B']
    }
}

fn tenths_exec(n: u64, d: u64) -> (t: u64)
    requires
        d == 1024 || d == 1024 * 1024,
    ensures
        t == tenths(n as nat, d as nat),
{
    let m: u128 = (n as u128) * 10;
    let q: u128 = m / (d as u128);
    let r: u128 = m % (d as u128);
    let up = 2 * r > (d as u128) || (2 * r == (d as u128) && q % 2 == 1);
    assert(q <= (n as u128) * 10 / 1024) by (nonlinear_arith)
        requires
            q == m / (d as u128),
            d >= 1024,
            m == (n as u128) * 10,
    ;
    assert(q < 0xffff_ffff_ffff_fff0u128) by (nonlinear_arith)
        requires
            q <= (n as u128) * 10 / 1024,
            n <= u64::MAX,
    ;
    let t: u128 = if up {
        q + 1
    } else {
        q
    };
    t as u64
}

fn one_decimal_text(t: u64) -> (s: String)
    ensures
        s@ == one_decimal(t as nat),
{
    let mut s = u64_text(t / 10);
    push_char(&mut s, '.');
    let d: u8 = (t % 10) as u8;
    let c: char = (d + 48u8) as char;
    push_char(&mut s, c);
    proof {
        assert(s@ =~= one_decimal(t as nat));
    }
    s
}

/// Renders a byte count with a unit.
pub fn format_size(bytes: u64) -> (s: String)
    ensures
        s@ == size_text(bytes as nat),
{
    if bytes < 1024 {
        let mut s = u64_text(bytes);
        push_char(&mut s, 'B');
        proof {
            assert(s@ =~= size_text(bytes as nat));
        }
        s
    } else if bytes < 1024 * 1024 {
        let mut s = one_decimal_text(tenths_exec(bytes, 1024));
        push_char(&mut s, 'K');
        push_char(&mut s, 'B');
        proof {
            assert(s@ =~= size_text(bytes as nat));
        }
        s
    } else {
        let mut s = one_decimal_text(tenths_exec(bytes, 1024 * 1024));
        push_char(&mut s, 'M');
        push_char(&mut s, 'B');
        proof {
            assert(s@ =~= size_text(bytes as nat));
        }
        s
    }
}

// ── Shell quoting and the find tool ──────────────────────────────────────────

/// Characters of `s` with each `'` written as `'\''`.
pub open spec fn escape_quotes(s: Seq<char>) -> Seq<char>
    decreases s.len(),
{
    if s.len() == 0 {
        seq![]
    } else {
        escape_quotes(s.drop_last()) + if s.last() == '\'' {
            seq!['\'', '\\', '\'', '\'']
        } else {
            seq![s.last()]
        }
    }
}

/// `s` single-quoted for a POSIX shell.
pub open spec fn shell_quoted(s: Seq<char>) -> Seq<char> {
    seq!['\''] + escape_quotes(s) + seq!['\'']
}

/// Quotes a string for a POSIX shell.
pub fn shell_escape(s: &str) -> (r: String)
    ensures
        r@ == shell_quoted(s@),
{
    let v = crate::text::str_chars(s);
    let mut out: Vec<char> = Vec::new();
    out.push('\'');
    let mut i: usize = 0;
    while i < v.len()
        invariant
            v@ == s@,
            i <= v@.len(),
            out@ == seq!['\''] + escape_quotes(v@.subrange(0, i as int)),
        decreases v.len() - i,
    {
        proof {
            assert(v@.subrange(0, i + 1).drop_last() =~= v@.subrange(0, i as int));
        }
        if v[i] == '\'' {
            out.push('\'');
            out.push('\\');
            out.push('\'');
            out.push('\'');
        } else {
            out.push(v[i]);
        }
        proof {
            assert(out@ =~= seq!['\''] + escape_quotes(v@.subrange(0, i + 1)));
        }
        i = i + 1;
    }
    out.push('\'');
    proof {
        assert(v@.subrange(0, i as int) =~= s@);
        assert(out@ =~= shell_quoted(s@));
    }
    crate::text::chars_to_string(out.as_slice())
}

/// The shell command of the find tool: `rg` lists files matching the glob
/// (sorted, at most 200).
pub open spec fn find_command_text(pattern: Seq<char>, path: Seq<char>) -> Seq<char> {
    "rg --files --color=never --glob="@ + shell_quoted(pattern) + " "@ + shell_quoted(path)
        + " 2>/dev/null | sort | head -200"@
}

/// Builds the find tool's shell command.
pub fn find_command(pattern: &str, search_path: &str) -> (r: String)
    ensures
        r@ == find_command_text(pattern@, search_path@),
{
    let mut s = String::from_str("rg --files --color=never --glob=");
    let a = shell_escape(pattern);
    push_str(&mut s, a.as_str());
    push_str(&mut s, " ");
    let b = shell_escape(search_path);
    push_str(&mut s, b.as_str());
    push_str(&mut s, " 2>/dev/null | sort | head -200");
    s
}

/// `s` without trailing white space.
pub open spec fn find_output_text(stdout: Seq<char>) -> Seq<char> {
    if stdout.len() == 0 {
        "No files found."@
    } else {
        crate::chars::trim_end(stdout)
    }
}

/// The find tool's reply from the command's stdout.
pub fn find_output(stdout: &str) -> (r: String)
    ensures
        r@ == find_output_text(stdout@),
{
    if stdout.is_empty() {
        return String::from_str("No files found.");
    }
    let v = crate::text::str_chars(stdout);
    let mut hi = v.len();
    proof {
        assert(v@.subrange(0, hi as int) =~= v@);
    }
    while hi > 0 && crate::chars::is_ws_char(v[hi - 1])
        invariant
            hi <= v@.len(),
            v@ == stdout@,
            crate::chars::trim_end(stdout@) == crate::chars::trim_end(v@.subrange(0, hi as int)),
        decreases hi,
    {
        proof {
            assert(v@.subrange(0, hi as int).drop_last() =~= v@.subrange(0, hi - 1));
        }
        hi = hi - 1;
    }
    proof {
        assert(crate::chars::trim_end(v@.subrange(0, hi as int)) =~= v@.subrange(0, hi as int));
    }
    crate::skills::chars_range_string(&v, 0, hi)
}

// ── The edit tool ────────────────────────────────────────────────────────────

/// Number of non-overlapping occurrences of `p` in `s` from position `i`
/// (`str::matches`); an empty pattern matches at every character boundary.
pub open spec fn count_from(s: Seq<char>, p: Seq<char>, i: int) -> nat
    decreases s.len() + 1 - i,
{
    if p.len() == 0 {
        if 0 <= i <= s.len() {
            (s.len() - i + 1) as nat
        } else {
            0
        }
    } else {
        let k = find_from(s, p, i);
        if k < 0 || k < i || k + p.len() > s.len() {
            0
        } else {
            1 + count_from(s, p, k + p.len())
        }
    }
}

/// `s` with its first occurrence of `p` replaced by `q` (`str::replacen` once).
pub open spec fn replace_first(s: Seq<char>, p: Seq<char>, q: Seq<char>) -> Seq<char> {
    let k = find_from(s, p, 0);
    if k < 0 {
        s
    } else {
        s.subrange(0, k) + q + s.subrange(k + p.len(), s.len() as int)
    }
}

/// The outcome of an edit: the new text when `old` occurs exactly once, else
/// the reason.
pub open spec fn edit_spec(path: Seq<char>, content: Seq<char>, old: Seq<char>, new: Seq<char>) -> Result<
    Seq<char>,
    Seq<char>,
> {
    let n = count_from(content, old, 0);
    if n == 0 {
        Err("old_string not found in "@ + path)
    } else if n == 1 {
        Ok(replace_first(content, old, new))
    } else {
        Err("old_string appears "@ + decimal(n) + " times in "@ + path + "; must appear exactly once"@)
    }
}

proof fn lemma_find_bounds(s: Seq<char>, p: Seq<char>, i: int)
    ensures
        find_from(s, p, i) == -1 || (i <= find_from(s, p, i) && find_from(s, p, i) + p.len()
            <= s.len()),
    decreases s.len() + 1 - i,
{
    if !(i < 0 || i + p.len() > s.len()) && !crate::chars::occurs_at(s, p, i) {
        lemma_find_bounds(s, p, i + 1);
    }
}

/// Counts the occurrences of `old` in `content` (capped at 2, enough to
/// decide).
fn count_capped(v: &Vec<char>, p: &Vec<char>) -> (n: usize)
    ensures
        n == (if count_from(v@, p@, 0) >= 2 {
            2
        } else {
            count_from(v@, p@, 0)
        }),
{
    if p.len() == 0 {
        return if v.len() == 0 {
            1
        } else {
            2
        };
    }
    match crate::chars::find_exec(v, p, 0) {
        None => 0,
        Some(k) => {
            proof {
                lemma_find_bounds(v@, p@, 0);
            }
            let vlen = v.len();
            let plen = p.len();
            assert(k + plen <= vlen);
            match crate::chars::find_exec(v, p, k + plen) {
                None => {
                    assert(count_from(v@, p@, (k + plen) as int) == 0);
                    1
                },
                Some(k2) => {
                    proof {
                        lemma_find_bounds(v@, p@, k + p@.len());
                    }
                    assert(count_from(v@, p@, (k + plen) as int) >= 1);
                    2
                },
            }
        },
    }
}

/// Counts all occurrences of `old` in `content`.
fn count_all(v: &Vec<char>, p: &Vec<char>) -> (n: u128)
    requires
        p@.len() > 0,
    ensures
        n == count_from(v@, p@, 0),
{
    let mut n: u128 = 0;
    let mut i: usize = 0;
    while i <= v.len()
        invariant
            p@.len() > 0,
            i <= v@.len() + 1,
            n + count_from(v@, p@, i as int) == count_from(v@, p@, 0),
            n <= i,
        decreases v.len() + 1 - i,
    {
        match crate::chars::find_exec(v, p, i) {
            None => {
                return n;
            },
            Some(k) => {
                proof {
                    lemma_find_bounds(v@, p@, i as int);
                }
                assert(k + p@.len() <= v@.len());
                n = n + 1;
                i = k + p.len();
            },
        }
    }
    proof {
        assert(count_from(v@, p@, i as int) == 0);
    }
    n
}

proof fn lemma_find_from_first(s: Seq<char>, p: Seq<char>, i: int)
    requires
        0 <= i,
    ensures
        find_from(s, p, i) >= 0 ==> crate::chars::occurs_at(s, p, find_from(s, p, i)) && i <= find_from(
            s,
            p,
            i,
        ) && forall|j: int| i <= j < find_from(s, p, i) ==> !#[trigger] crate::chars::occurs_at(s, p, j),
    decreases s.len() + 1 - i,
{
    if !(i + p.len() > s.len()) && !crate::chars::occurs_at(s, p, i) {
        lemma_find_from_first(s, p, i + 1);
    }
}

/// A successful edit replaces the first occurrence of `old` with `new` and
/// keeps everything before and after it: the result is the text before the
/// match, then `new`, then the text after the match, so its length is that
/// of `content` less `old` plus `new`.
pub proof fn law_edit_keeps_text_around_match(
    path: Seq<char>,
    content: Seq<char>,
    old: Seq<char>,
    new: Seq<char>,
)
    requires
        edit_spec(path, content, old, new) is Ok,
    ensures
        exists|k: int|
            crate::chars::occurs_at(content, old, k) && (forall|j: int|
                0 <= j < k ==> !#[trigger] crate::chars::occurs_at(content, old, j))
                && edit_spec(path, content, old, new)->Ok_0 == content.subrange(0, k) + new
                + content.subrange(k + old.len(), content.len() as int),
        edit_spec(path, content, old, new)->Ok_0.len() == content.len() - old.len() + new.len(),
{
    let k = find_from(content, old, 0);
    lemma_find_from_first(content, old, 0);
    if old.len() == 0 {
        assert(crate::chars::occurs_at(content, old, 0)) by {
            assert(content.subrange(0, 0) =~= old);
        }
    } else {
        assert(count_from(content, old, 0) == 1);
    }
    assert(k >= 0);
    assert(crate::chars::occurs_at(content, old, k));
    let r = content.subrange(0, k) + new + content.subrange(k + old.len(), content.len() as int);
    assert(edit_spec(path, content, old, new)->Ok_0 == r);
}

/// Replaces the single occurrence of `old_string` in a file's text.
pub fn apply_edit(path_str: &str, content: &str, old_string: &str, new_string: &str) -> (r: Result<
    String,
    ToolError,
>)
    ensures
        match r {
            Ok(s) => edit_spec(path_str@, content@, old_string@, new_string@) == Ok::<
                Seq<char>,
                Seq<char>,
            >(s@),
            Err(e) => edit_spec(path_str@, content@, old_string@, new_string@) is Err && (
            e matches ToolError::Execution(m) && m@ == edit_spec(
                path_str@,
                content@,
                old_string@,
                new_string@,
            )->Err_0),
        },
{
    let v = crate::text::str_chars(content);
    let p = crate::text::str_chars(old_string);
    let c = count_capped(&v, &p);
    if c == 0 {
        let mut m = String::from_str("old_string not found in ");
        push_str(&mut m, path_str);
        return Err(ToolError::Execution(m));
    }
    if c >= 2 {
        let n: u128 = if p.len() == 0 {
            (v.len() as u128) + 1
        } else {
            count_all(&v, &p)
        };
        let mut m = String::from_str("old_string appears ");
        let t = crate::text::u128_text(n);
        push_str(&mut m, t.as_str());
        push_str(&mut m, " times in ");
        push_str(&mut m, path_str);
        push_str(&mut m, "; must appear exactly once");
        return Err(ToolError::Execution(m));
    }
    let k = match crate::chars::find_exec(&v, &p, 0) {
        Some(k) => k,
        None => {
            proof {
                assert(p@.len() == 0 ==> false) by {
                    if p@.len() == 0 {
                        assert(v@.subrange(0, 0) =~= p@);
                    }
                }
            }
            0
        },
    };
    proof {
        lemma_find_bounds(v@, p@, 0);
        if p@.len() == 0 {
            assert(crate::chars::occurs_at(v@, p@, 0)) by {
                assert(v@.subrange(0, 0) =~= p@);
            }
        }
        assert(k + p@.len() <= v@.len());
    }
    let vlen = v.len();
    let plen = p.len();
    assert(k + plen <= vlen);
    let mut out: Vec<char> = Vec::new();
    crate::text::push_chars(&mut out, &v, 0, k);
    crate::text::push_str_chars(&mut out, new_string);
    crate::text::push_chars(&mut out, &v, k + plen, vlen);
    Ok(crate::text::chars_to_string(out.as_slice()))
}

/// The write tool's success message.
pub open spec fn wrote_text(n: nat, path: Seq<char>) -> Seq<char> {
    "Successfully wrote "@ + decimal(n) + " bytes to "@ + path
}

/// Reports a successful write of `content` to `path_str`.
pub fn write_success_message(content: &str, path_str: &str) -> (r: String)
    ensures
        r@ == wrote_text(byte_len(content@) as nat, path_str@),
{
    proof {
        assert(content.spec_bytes() == encode_utf8(content@));
    }
    let mut s = String::from_str("Successfully wrote ");
    let n = u64_text(content.len() as u64);
    push_str(&mut s, n.as_str());
    push_str(&mut s, " bytes to ");
    push_str(&mut s, path_str);
    s
}

// ── Paths ────────────────────────────────────────────────────────────────────

/// `Path::is_absolute` of a path text.
pub uninterp spec fn path_is_absolute(p: Seq<char>) -> bool;

/// `Path::join` of two path texts.
pub uninterp spec fn path_join(base: Seq<char>, p: Seq<char>) -> Seq<char>;

/// The texts of `Path::components` (each `Component::as_os_str`).
pub uninterp spec fn path_components(p: Seq<char>) -> Seq<Seq<char>>;

/// `Path::strip_prefix` as text, when `base` is a prefix.
pub uninterp spec fn path_strip_prefix(p: Seq<char>, base: Seq<char>) -> Option<Seq<char>>;

/// `Path::is_absolute`; the result is named, not described.
#[verifier::external_body]
fn is_absolute_path(p: &str) -> (b: bool)
    ensures
        b == path_is_absolute(p@),
{
    std::path::Path::new(p).is_absolute()
}

/// `Path::join`; the result is named, not described.
#[verifier::external_body]
pub(crate) fn join_path(base: &str, p: &str) -> (r: String)
    ensures
        r@ == path_join(base@, p@),
{
    std::path::Path::new(base).join(p).to_string_lossy().into_owned()
}

/// `Path::components`, each as text; the result is named, not described.
#[verifier::external_body]
fn components_of(p: &str) -> (r: Vec<String>)
    ensures
        r@.map_values(|s: String| s@) == path_components(p@),
{
    std::path::Path::new(p).components().map(|c| c.as_os_str().to_string_lossy().into_owned()).collect()
}

/// `Path::strip_prefix` as text; the result is named, not described.
#[verifier::external_body]
fn strip_prefix_of(p: &str, base: &str) -> (r: Option<String>)
    ensures
        crate::skills::opt_view(r) == path_strip_prefix(p@, base@),
{
    let rest = std::path::Path::new(p).strip_prefix(base).ok()?;
    Some(rest.to_str()?.to_string())
}

/// Joins two path texts (`Path::join`).
pub fn resolve_join(base: &str, p: &str) -> (r: String)
    ensures
        r@ == path_join(base@, p@),
{
    join_path(base, p)
}

/// A tool path resolved against the working directory: absolute paths stay,
/// relative ones are joined to `cwd`.
pub open spec fn resolved_path(path: Seq<char>, cwd: Seq<char>) -> Seq<char> {
    if path_is_absolute(path) {
        path
    } else {
        path_join(cwd, path)
    }
}

/// Resolves a tool path against the working directory.
pub fn resolve_path(path: &str, cwd: &str) -> (r: String)
    ensures
        r@ == resolved_path(path@, cwd@),
{
    if is_absolute_path(path) {
        String::from_str(path)
    } else {
        join_path(cwd, path)
    }
}

/// A path written with `/` between its components.
pub open spec fn posix_text(p: Seq<char>) -> Seq<char> {
    join(path_components(p), seq!['/'])
}

/// Writes a path with `/` between its components.
pub fn to_posix_path(path: &str) -> (r: String)
    ensures
        r@ == posix_text(path@),
{
    let cs = components_of(path);
    let r = join_strings(cs.as_slice(), "/");
    proof {
        reveal_strlit("/");
        assert("/"@ =~= seq!['/']);
    }
    r
}

/// How a search result path is shown: relative to a searched directory (with
/// `/` separators), else the file name (or the whole path when it has none).
pub open spec fn displayed_path(path: Seq<char>, root: Seq<char>, root_is_dir: bool) -> Seq<char> {
    if root_is_dir {
        posix_text(
            match path_strip_prefix(path, root) {
                Some(r) => r,
                None => path,
            },
        )
    } else {
        match crate::skills::path_file_name(path) {
            Some(n) => n,
            None => path,
        }
    }
}

/// Shows a search result path; `root_is_dir` tells whether the searched
/// root is a directory.
pub fn display_path(path: &str, root: &str, root_is_dir: bool) -> (r: String)
    ensures
        r@ == displayed_path(path@, root@, root_is_dir),
{
    if root_is_dir {
        match strip_prefix_of(path, root) {
            Some(rel) => to_posix_path(rel.as_str()),
            None => to_posix_path(path),
        }
    } else {
        match crate::skills::file_name_text(path) {
            Some(n) => n,
            None => String::from_str(path),
        }
    }
}

// ── Include globs and patterns ───────────────────────────────────────────────

/// Whether a glob (`globset`, `*` not crossing `/`) matches a text.
pub uninterp spec fn glob_matches(pattern: Seq<char>, text: Seq<char>) -> bool;

/// Whether a glob pattern compiles, or the error text.
pub uninterp spec fn glob_build(pattern: Seq<char>) -> Result<(), Seq<char>>;

/// Whether a regular expression (`regex`) matches somewhere in a text.
pub uninterp spec fn regex_matches(pattern: Seq<char>, text: Seq<char>) -> bool;

/// Whether a regular expression compiles, or the error text.
pub uninterp spec fn regex_build(pattern: Seq<char>) -> Result<(), Seq<char>>;

#[verifier::external_type_specification]
#[verifier::external_body]
pub struct ExGlobMatcher(globset::GlobMatcher);

#[verifier::external_type_specification]
#[verifier::external_body]
pub struct ExRegex(regex::Regex);

/// A compiled include glob with the pattern it was compiled from.
pub struct IncludeGlob {
    pattern: String,
    matcher: globset::GlobMatcher,
}

impl IncludeGlob {
    pub closed spec fn pattern(&self) -> Seq<char> {
        self.pattern@
    }
}

/// A compiled search pattern with its text.
pub struct SearchPattern {
    pattern: String,
    regex: regex::Regex,
}

impl SearchPattern {
    pub closed spec fn pattern(&self) -> Seq<char> {
        self.pattern@
    }
}

/// Compiles a glob with `globset` (`GlobBuilder` with `literal_separator`);
/// the outcome is named, not described.
#[verifier::external_body]
fn compile_glob(pattern: &str) -> (r: Result<globset::GlobMatcher, String>)
    ensures
        match r {
            Ok(_) => glob_build(pattern@) == Ok::<(), Seq<char>>(()),
            Err(e) => glob_build(pattern@) == Err::<(), Seq<char>>(e@),
        },
{
    match globset::GlobBuilder::new(pattern).literal_separator(true).build() {
        Ok(g) => Ok(g.compile_matcher()),
        Err(e) => Err(e.to_string()),
    }
}

/// `GlobMatcher::is_match`; the result is named for the matcher's pattern.
#[verifier::external_body]
fn glob_is_match(g: &IncludeGlob, text: &str) -> (b: bool)
    ensures
        b == glob_matches(g.pattern(), text@),
{
    g.matcher.is_match(text)
}

/// Compiles a regular expression with `regex`; the outcome is named, not
/// described.
#[verifier::external_body]
fn compile_regex(pattern: &str) -> (r: Result<regex::Regex, String>)
    ensures
        match r {
            Ok(_) => regex_build(pattern@) == Ok::<(), Seq<char>>(()),
            Err(e) => regex_build(pattern@) == Err::<(), Seq<char>>(e@),
        },
{
    regex::RegexBuilder::new(pattern).build().map_err(|e| e.to_string())
}

/// `Regex::is_match`; the result is named for the regex's pattern.
#[verifier::external_body]
fn regex_is_match(r: &SearchPattern, text: &str) -> (b: bool)
    ensures
        b == regex_matches(r.pattern(), text@),
{
    r.regex.is_match(text)
}

/// Builds the matcher of an include glob.
pub fn build_glob_matcher(pattern: &str) -> (r: Result<IncludeGlob, ToolError>)
    ensures
        match r {
            Ok(g) => glob_build(pattern@) is Ok && g.pattern() == pattern@,
            Err(e) => glob_build(pattern@) is Err && (e matches ToolError::InvalidArguments(m)
                && m@ == "invalid include glob: "@ + glob_build(pattern@)->Err_0),
        },
{
    match compile_glob(pattern) {
        Ok(matcher) => Ok(IncludeGlob { pattern: String::from_str(pattern), matcher }),
        Err(e) => {
            let mut m = String::from_str("invalid include glob: ");
            push_str(&mut m, e.as_str());
            Err(ToolError::InvalidArguments(m))
        },
    }
}

/// Builds the regex of a search pattern.
pub fn build_search_pattern(pattern: &str) -> (r: Result<SearchPattern, ToolError>)
    ensures
        match r {
            Ok(p) => regex_build(pattern@) is Ok && p.pattern() == pattern@,
            Err(e) => regex_build(pattern@) is Err && (e matches ToolError::InvalidArguments(m)
                && m@ == "invalid regex pattern: "@ + regex_build(pattern@)->Err_0),
        },
{
    match compile_regex(pattern) {
        Ok(regex) => Ok(SearchPattern { pattern: String::from_str(pattern), regex }),
        Err(e) => {
            let mut m = String::from_str("invalid regex pattern: ");
            push_str(&mut m, e.as_str());
            Err(ToolError::InvalidArguments(m))
        },
    }
}

/// A relative path passes an include glob when the glob matches the path
/// (with `/` separators) or its file name.
pub open spec fn glob_admits(pattern: Seq<char>, relative: Seq<char>) -> bool {
    glob_matches(pattern, posix_text(relative)) || match crate::skills::path_file_name(relative) {
        Some(n) => glob_matches(pattern, n),
        None => false,
    }
}

/// Whether an include glob admits a relative path.
pub fn matches_glob(matcher: &IncludeGlob, relative: &str) -> (b: bool)
    ensures
        b == glob_admits(matcher.pattern(), relative@),
{
    let posix = to_posix_path(relative);
    if glob_is_match(matcher, posix.as_str()) {
        return true;
    }
    match crate::skills::file_name_text(relative) {
        Some(n) => glob_is_match(matcher, n.as_str()),
        None => false,
    }
}

// ── Search results ───────────────────────────────────────────────────────────

/// One result line: path, separator, line number, separator, text.
pub open spec fn result_line(path: Seq<char>, sep: char, no: nat, text: Seq<char>) -> Seq<char> {
    path + seq![sep] + decimal(no) + seq![sep] + seq![' '] + text
}

/// Result lines for lines `cur..=end` (1-based) around the match at `no`.
pub open spec fn context_block(path: Seq<char>, lines: Seq<Seq<char>>, no: int, cur: int, end: int) -> Seq<
    Seq<char>,
>
    decreases end + 1 - cur,
{
    if cur > end || cur < 1 || cur > lines.len() {
        seq![]
    } else {
        seq![result_line(path, if cur == no { ':' } else { '-' }, cur as nat, lines[cur - 1])]
            + context_block(path, lines, no, cur + 1, end)
    }
}

/// The result lines of one file: for every matching line, the lines from
/// `context` before to `context` after it (within the file).
pub open spec fn file_results(
    path: Seq<char>,
    lines: Seq<Seq<char>>,
    pattern: Seq<char>,
    context: nat,
    k: int,
) -> Seq<Seq<char>>
    decreases k,
{
    if k <= 0 || k > lines.len() {
        seq![]
    } else {
        let r = file_results(path, lines, pattern, context, k - 1);
        let idx = k - 1;
        if regex_matches(pattern, lines[idx]) {
            let no = idx + 1;
            let start = if no - context < 1 {
                1
            } else {
                no - context
            };
            let end = if no + context > lines.len() {
                lines.len() as int
            } else {
                no + context
            };
            r + context_block(path, lines, no, start, end)
        } else {
            r
        }
    }
}

/// Appends the result lines of one searched file (`text` split by
/// `str::lines`) to `out`.
pub fn search_file(
    display: &str,
    text: &str,
    pattern: &SearchPattern,
    context: usize,
    out: &mut Vec<String>,
)
    ensures
        final(out)@.map_values(|s: String| s@) == old(out)@.map_values(|s: String| s@)
            + file_results(
            display@,
            crate::chars::text_lines(text@),
            pattern.pattern(),
            context as nat,
            crate::chars::text_lines(text@).len() as int,
        ),
{
    let lines = crate::chars::lines_of(text);
    let ghost lv = lines@.map_values(|s: String| s@);
    let ghost start_out = out@.map_values(|s: String| s@);
    let n = lines.len();
    let mut idx: usize = 0;
    while idx < n
        invariant
            idx <= n,
            n == lines@.len(),
            lv == lines@.map_values(|s: String| s@),
            lv == crate::chars::text_lines(text@),
            out@.map_values(|s: String| s@) == start_out + file_results(
                display@,
                lv,
                pattern.pattern(),
                context as nat,
                idx as int,
            ),
        decreases n - idx,
    {
        proof {
            assert(lv[idx as int] == lines@[idx as int]@);
        }
        if regex_is_match(pattern, lines[idx].as_str()) {
            let no = idx + 1;
            let start: usize = if no <= context {
                1
            } else {
                no - context
            };
            let end: usize = if context > n - no {
                n
            } else {
                no + context
            };
            let ghost before = out@.map_values(|s: String| s@);
            let mut cur = start;
            proof {
                assert(before + context_block(display@, lv, no as int, start as int, end as int)
                    == before + context_block(display@, lv, no as int, cur as int, end as int));
            }
            let ghost mid0 = before;
            loop
                invariant_except_break
                    out@.map_values(|s: String| s@) + context_block(
                        display@,
                        lv,
                        no as int,
                        cur as int,
                        end as int,
                    ) == before + context_block(display@, lv, no as int, start as int, end as int),
                invariant
                    1 <= start <= cur <= end,
                    end <= n,
                    n == lines@.len(),
                    lv == lines@.map_values(|s: String| s@),
                ensures
                    out@.map_values(|s: String| s@) + context_block(
                        display@,
                        lv,
                        no as int,
                        end + 1,
                        end as int,
                    ) == before + context_block(display@, lv, no as int, start as int, end as int),
                decreases end - cur,
            {
                let sep = if cur == no {
                    ':'
                } else {
                    '-'
                };
                let mut line = String::from_str(display);
                push_char(&mut line, sep);
                let num = u64_text(cur as u64);
                push_str(&mut line, num.as_str());
                push_char(&mut line, sep);
                push_char(&mut line, ' ');
                push_str(&mut line, lines[cur - 1].as_str());
                let ghost o0 = out@.map_values(|s: String| s@);
                let ghost lnv = line@;
                proof {
                    assert(lv[cur - 1] == lines@[cur - 1]@);
                    assert(lnv =~= result_line(display@, sep, cur as nat, lv[cur - 1]));
                }
                out.push(line);
                proof {
                    assert(out@.map_values(|s: String| s@) =~= o0.push(lnv));
                    assert(o0 + context_block(display@, lv, no as int, cur as int, end as int)
                        =~= o0.push(lnv) + context_block(
                        display@,
                        lv,
                        no as int,
                        cur + 1,
                        end as int,
                    ));
                }
                if cur == end {
                    break;
                }
                cur = cur + 1;
            }
            proof {
                assert(context_block(display@, lv, no as int, end + 1, end as int) =~= Seq::<
                    Seq<char>,
                >::empty());
                assert(out@.map_values(|s: String| s@) =~= before + context_block(
                    display@,
                    lv,
                    no as int,
                    start as int,
                    end as int,
                ));
                assert(start_out + file_results(
                    display@,
                    lv,
                    pattern.pattern(),
                    context as nat,
                    idx as int,
                ) + context_block(display@, lv, no as int, start as int, end as int)
                    =~= start_out + (file_results(
                    display@,
                    lv,
                    pattern.pattern(),
                    context as nat,
                    idx as int,
                ) + context_block(display@, lv, no as int, start as int, end as int)));
            }
        }
        idx = idx + 1;
    }
}

/// The search tool's reply.
pub open spec fn search_reply(lines: Seq<Seq<char>>) -> Seq<char> {
    if lines.len() == 0 {
        "No matches found."@
    } else {
        join(lines, seq!['\n'])
    }
}

/// Joins the result lines of a search.
pub fn search_output(lines: &[String]) -> (r: String)
    ensures
        r@ == search_reply(lines@.map_values(|s: String| s@)),
{
    if lines.len() == 0 {
        return String::from_str("No matches found.");
    }
    let r = join_strings(lines, "\n");
    proof {
        reveal_strlit("\n");
        assert("\n"@ =~= seq!['\n']);
    }
    r
}

// ── Directory listings ───────────────────────────────────────────────────────

/// One directory entry; `modified` is milliseconds since the epoch.
#[derive(Debug)]
pub struct FileInfo {
    pub path: String,
    pub is_dir: bool,
    pub size: u64,
    pub modified: i64,
}

/// Lexicographic order of texts by character (the order of `String`).
pub open spec fn lex_le(a: Seq<char>, b: Seq<char>) -> bool
    decreases a.len(),
{
    if a.len() == 0 {
        true
    } else if b.len() == 0 {
        false
    } else if a[0] != b[0] {
        a[0] < b[0]
    } else {
        lex_le(a.drop_first(), b.drop_first())
    }
}

/// Sorted by [`lex_le`].
pub open spec fn lex_sorted(s: Seq<Seq<char>>) -> bool {
    forall|i: int, j: int| 0 <= i < j < s.len() ==> lex_le(#[trigger] s[i], #[trigger] s[j])
}

pub proof fn lemma_lex_total(a: Seq<char>, b: Seq<char>)
    ensures
        lex_le(a, b) || lex_le(b, a),
    decreases a.len(),
{
    if a.len() > 0 && b.len() > 0 && a[0] == b[0] {
        lemma_lex_total(a.drop_first(), b.drop_first());
    }
}

pub proof fn lemma_lex_trans(a: Seq<char>, b: Seq<char>, c: Seq<char>)
    requires
        lex_le(a, b),
        lex_le(b, c),
    ensures
        lex_le(a, c),
    decreases a.len(),
{
    if a.len() > 0 && b.len() > 0 && c.len() > 0 && a[0] == b[0] && b[0] == c[0] {
        lemma_lex_trans(a.drop_first(), b.drop_first(), c.drop_first());
    }
}

fn lex_le_exec(a: &String, b: &String) -> (r: bool)
    ensures
        r == lex_le(a@, b@),
{
    let x = crate::text::str_chars(a.as_str());
    let y = crate::text::str_chars(b.as_str());
    let mut i: usize = 0;
    proof {
        assert(x@.subrange(0, x@.len() as int) =~= x@);
        assert(y@.subrange(0, y@.len() as int) =~= y@);
    }
    while i < x.len() && i < y.len() && x[i] == y[i]
        invariant
            i <= x@.len(),
            i <= y@.len(),
            x@ == a@,
            y@ == b@,
            lex_le(a@, b@) == lex_le(x@.subrange(i as int, x@.len() as int), y@.subrange(
                i as int,
                y@.len() as int,
            )),
        decreases x.len() - i,
    {
        proof {
            let xs = x@.subrange(i as int, x@.len() as int);
            let ys = y@.subrange(i as int, y@.len() as int);
            assert(xs.drop_first() =~= x@.subrange(i + 1, x@.len() as int));
            assert(ys.drop_first() =~= y@.subrange(i + 1, y@.len() as int));
        }
        i = i + 1;
    }
    proof {
        let xs = x@.subrange(i as int, x@.len() as int);
        let ys = y@.subrange(i as int, y@.len() as int);
        if i < x@.len() {
            assert(xs[0] == x@[i as int]);
        }
        if i < y@.len() {
            assert(ys[0] == y@[i as int]);
        }
    }
    if i == x.len() {
        true
    } else if i == y.len() {
        false
    } else {
        x[i] < y[i]
    }
}

/// Sorts texts into [`lex_le`] order (a permutation of the input).
pub fn sort_texts(v: Vec<String>) -> (r: Vec<String>)
    ensures
        lex_sorted(r@.map_values(|s: String| s@)),
        r@.map_values(|s: String| s@).to_multiset() == v@.map_values(|s: String| s@).to_multiset(),
{
    let ghost vv = v@.map_values(|s: String| s@);
    let mut out: Vec<String> = Vec::new();
    let mut i: usize = 0;
    proof {
        assert(out@.map_values(|s: String| s@) =~= vv.subrange(0, 0));
    }
    while i < v.len()
        invariant
            i <= v@.len(),
            vv == v@.map_values(|s: String| s@),
            lex_sorted(out@.map_values(|s: String| s@)),
            out@.map_values(|s: String| s@).to_multiset() == vv.subrange(0, i as int).to_multiset(),
        decreases v.len() - i,
    {
        let x = v[i].clone();
        let ghost ov = out@.map_values(|s: String| s@);
        let mut p: usize = 0;
        while p < out.len() && lex_le_exec(&out[p], &x)
            invariant
                p <= out@.len(),
                ov == out@.map_values(|s: String| s@),
                forall|k: int| 0 <= k < p ==> lex_le(#[trigger] ov[k], x@),
            decreases out.len() - p,
        {
            proof {
                assert(ov[p as int] == out@[p as int]@);
            }
            p = p + 1;
        }
        proof {
            if p < out@.len() {
                assert(ov[p as int] == out@[p as int]@);
                assert(!lex_le(ov[p as int], x@));
                lemma_lex_total(ov[p as int], x@);
            }
        }
        let ghost xv = x@;
        out.insert(p, x);
        proof {
            let nv = out@.map_values(|s: String| s@);
            assert(nv =~= ov.insert(p as int, xv));
            assert forall|a: int, b: int| 0 <= a < b < nv.len() implies lex_le(
                #[trigger] nv[a],
                #[trigger] nv[b],
            ) by {
                if a < p && b < p {
                    assert(nv[a] == ov[a] && nv[b] == ov[b]);
                } else if a < p && b == p {
                    assert(nv[a] == ov[a]);
                } else if a < p && b > p {
                    assert(nv[a] == ov[a] && nv[b] == ov[b - 1]);
                } else if a == p {
                    assert(nv[b] == ov[b - 1]);
                    assert(lex_le(xv, ov[p as int]));
                    if b - 1 > p {
                        lemma_lex_trans(xv, ov[p as int], ov[b - 1]);
                    }
                } else {
                    assert(nv[a] == ov[a - 1] && nv[b] == ov[b - 1]);
                }
            }
            assert(vv.subrange(0, i + 1) =~= vv.subrange(0, i as int).push(xv));
            vstd::seq_lib::to_multiset_build(vv.subrange(0, i as int), xv);
            vstd::seq_lib::to_multiset_insert(ov, p as int, xv);
            assert(xv == vv[i as int]);
        }
        i = i + 1;
    }
    proof {
        assert(vv.subrange(0, i as int) =~= vv);
    }
    out
}

/// The listing line of one entry: its name with `/` for a directory, else
/// with its size.
pub open spec fn entry_line(e: FileInfo) -> Seq<char> {
    let name = match crate::skills::path_file_name(e.path@) {
        Some(n) => n,
        None => seq![],
    };
    if e.is_dir {
        name + seq!['/']
    } else {
        name + seq![' ', '('] + size_text(e.size as nat) + seq![')']
    }
}

/// A directory listing: the entries' lines sorted and joined by newlines, or
/// the path marked `(empty)`.
pub open spec fn listing_text(entries: Seq<FileInfo>, path: Seq<char>, sorted: Seq<Seq<char>>) -> bool {
    if entries.len() == 0 {
        sorted == seq![path + " (empty)"@]
    } else {
        lex_sorted(sorted) && sorted.to_multiset() == entries.map_values(
            |e: FileInfo| entry_line(e),
        ).to_multiset()
    }
}

/// Formats a directory listing.
pub fn format_entries(entries: &[FileInfo], path: &str) -> (r: String)
    ensures
        entries@.len() == 0 ==> r@ == path@ + " (empty)"@,
        entries@.len() > 0 ==> exists|sorted: Seq<Seq<char>>|
            listing_text(entries@, path@, sorted) && r@ == join(sorted, seq!['\n']),
{
    if entries.len() == 0 {
        let mut s = String::from_str(path);
        push_str(&mut s, " (empty)");
        return s;
    }
    let mut lines: Vec<String> = Vec::new();
    let mut i: usize = 0;
    while i < entries.len()
        invariant
            i <= entries@.len(),
            lines@.map_values(|s: String| s@) == entries@.subrange(0, i as int).map_values(
                |e: FileInfo| entry_line(e),
            ),
        decreases entries.len() - i,
    {
        let e = &entries[i];
        let mut line = match crate::skills::file_name_text(e.path.as_str()) {
            Some(n) => n,
            None => String::new(),
        };
        if e.is_dir {
            push_char(&mut line, '/');
        } else {
            push_str(&mut line, " (");
            let sz = format_size(e.size);
            push_str(&mut line, sz.as_str());
            push_char(&mut line, ')');
        }
        let ghost lv = line@;
        proof {
            reveal_strlit(" (");
            assert(lv =~= entry_line(*e));
        }
        let ghost before = lines@.map_values(|s: String| s@);
        lines.push(line);
        proof {
            assert(lines@.map_values(|s: String| s@) =~= before.push(lv));
            assert(lines@.map_values(|s: String| s@) =~= entries@.subrange(0, i + 1).map_values(
                |e: FileInfo| entry_line(e),
            ));
        }
        i = i + 1;
    }
    proof {
        assert(entries@.subrange(0, i as int) =~= entries@);
    }
    let sorted = sort_texts(lines);
    let r = join_strings(sorted.as_slice(), "\n");
    proof {
        reveal_strlit("\n");
        assert("\n"@ =~= seq!['\n']);
        assert(listing_text(entries@, path@, sorted@.map_values(|s: String| s@)));
    }
    r
}

/// The listing error of the ls tool.
pub fn list_error(path_str: &str, err: &crate::errors::EnvError) -> (e: ToolError)
    ensures
        e matches ToolError::Execution(m) && m@ == "Could not list "@ + path_str@ + ": "@
            + err.text(),
{
    let mut m = String::from_str("Could not list ");
    push_str(&mut m, path_str);
    push_str(&mut m, ": ");
    let t = err.message();
    push_str(&mut m, t.as_str());
    ToolError::Execution(m)
}

// ── Tool names ───────────────────────────────────────────────────────────────

/// Names of all built-in tools, in declaration order.
pub const ALL_TOOL_NAMES: [&'static str; 7] = ["read", "bash", "edit", "write", "grep", "find", "ls"];

/// Names of the tools active by default.
pub const DEFAULT_TOOL_NAMES: [&'static str; 4] = ["read", "bash", "edit", "write"];

/// Position of the first tool with the given name.
pub open spec fn first_named(names: Seq<Seq<char>>, n: Seq<char>) -> int
    decreases names.len(),
{
    if names.len() == 0 {
        -1
    } else {
        let r = first_named(names.drop_last(), n);
        if r >= 0 {
            r
        } else if names.last() == n {
            names.len() - 1
        } else {
            -1
        }
    }
}

/// Positions (in `all`) of the wanted tools, in the order of `wanted`;
/// unknown names are skipped.
pub open spec fn selection(all: Seq<Seq<char>>, wanted: Seq<Seq<char>>) -> Seq<int>
    decreases wanted.len(),
{
    if wanted.len() == 0 {
        seq![]
    } else {
        let r = selection(all, wanted.drop_last());
        let k = first_named(all, wanted.last());
        if k >= 0 {
            r.push(k)
        } else {
            r
        }
    }
}

fn first_named_exec(all: &[String], n: &String) -> (r: Option<usize>)
    ensures
        match r {
            Some(k) => first_named(all@.map_values(|s: String| s@), n@) == k,
            None => first_named(all@.map_values(|s: String| s@), n@) == -1,
        },
{
    let ghost av = all@.map_values(|s: String| s@);
    let mut i: usize = 0;
    while i < all.len()
        invariant
            i <= all@.len(),
            av == all@.map_values(|s: String| s@),
            first_named(av.subrange(0, i as int), n@) == -1,
        decreases all.len() - i,
    {
        proof {
            assert(av.subrange(0, i + 1).drop_last() =~= av.subrange(0, i as int));
            assert(av[i as int] == all@[i as int]@);
        }
        if all[i] == *n {
            proof {
                lemma_first_named_prefix(av, n@, (i + 1) as int);
            }
            return Some(i);
        }
        i = i + 1;
    }
    proof {
        assert(av.subrange(0, i as int) =~= av);
    }
    None
}

proof fn lemma_first_named_prefix(names: Seq<Seq<char>>, n: Seq<char>, k: int)
    requires
        0 < k <= names.len(),
        first_named(names.subrange(0, k - 1), n) == -1,
        names[k - 1] == n,
    ensures
        first_named(names, n) == k - 1,
    decreases names.len(),
{
    if names.len() == k {
        assert(names.drop_last() =~= names.subrange(0, k - 1));
    } else {
        assert(names.drop_last().subrange(0, k - 1) =~= names.subrange(0, k - 1));
        assert(names.drop_last()[k - 1] == names[k - 1]);
        lemma_first_named_prefix(names.drop_last(), n, k);
    }
}

/// Picks tools by name: for each wanted name in order, the position of the
/// first tool with that name; unknown names are skipped.
pub fn select_tools(all_names: &[String], names: &[String]) -> (r: Vec<usize>)
    ensures
        r@.map_values(|k: usize| k as int) == selection(
            all_names@.map_values(|s: String| s@),
            names@.map_values(|s: String| s@),
        ),
{
    let ghost av = all_names@.map_values(|s: String| s@);
    let ghost nv = names@.map_values(|s: String| s@);
    let mut out: Vec<usize> = Vec::new();
    let mut i: usize = 0;
    while i < names.len()
        invariant
            i <= names@.len(),
            av == all_names@.map_values(|s: String| s@),
            nv == names@.map_values(|s: String| s@),
            out@.map_values(|k: usize| k as int) == selection(av, nv.subrange(0, i as int)),
        decreases names.len() - i,
    {
        proof {
            assert(nv.subrange(0, i + 1).drop_last() =~= nv.subrange(0, i as int));
            assert(nv[i as int] == names@[i as int]@);
        }
        match first_named_exec(all_names, &names[i]) {
            Some(k) => {
                let ghost before = out@;
                out.push(k);
                proof {
                    assert(out@.map_values(|k: usize| k as int) =~= before.map_values(
                        |k: usize| k as int,
                    ).push(k as int));
                }
            },
            None => {},
        }
        i = i + 1;
    }
    proof {
        assert(nv.subrange(0, i as int) =~= nv);
    }
    out
}

} // verus!

//! Character-level text operations over `Seq<char>` models: whitespace,
//! trimming, prefix tests, substring search, line splitting and joining.
use vstd::prelude::*;

verus! {

/// Unicode `White_Space` characters (those for which `char::is_whitespace` holds).
pub open spec fn is_ws(c: char) -> bool {
    ||| c == ' '
    ||| ('\t' <= c && c <= '\r')
    ||| c == '\u{85}'
    ||| c == '\u{A0}'
    ||| c == '\u{1680}'
    ||| ('\u{2000}' <= c && c <= '\u{200A}')
    ||| c == '\u{2028}'
    ||| c == '\u{2029}'
    ||| c == '\u{202F}'
    ||| c == '\u{205F}'
    ||| c == '\u{3000}'
}

/// Whether a character is Unicode white space.
pub fn is_ws_char(c: char) -> (b: bool)
    ensures
        b == is_ws(c),
{
    c == ' ' || ('\t' <= c && c <= '\r') || c == '\u{85}' || c == '\u{A0}' || c == '\u{1680}' || (
    '\u{2000}' <= c && c <= '\u{200A}') || c == '\u{2028}' || c == '\u{2029}' || c == '\u{202F}'
        || c == '\u{205F}' || c == '\u{3000}'
}

/// ASCII decimal digit.
pub open spec fn is_digit(c: char) -> bool {
    '0' <= c && c <= '9'
}

/// `s` without leading white space.
pub open spec fn trim_start(s: Seq<char>) -> Seq<char>
    decreases s.len(),
{
    if s.len() > 0 && is_ws(s[0]) {
        trim_start(s.drop_first())
    } else {
        s
    }
}

/// `s` without trailing white space.
pub open spec fn trim_end(s: Seq<char>) -> Seq<char>
    decreases s.len(),
{
    if s.len() > 0 && is_ws(s.last()) {
        trim_end(s.drop_last())
    } else {
        s
    }
}

/// `s` without leading and trailing white space.
pub open spec fn trim(s: Seq<char>) -> Seq<char> {
    trim_end(trim_start(s))
}

/// `s` begins with `p`.
pub open spec fn starts_with(s: Seq<char>, p: Seq<char>) -> bool {
    p.len() <= s.len() && s.subrange(0, p.len() as int) == p
}

/// `s` contains `p` at position `i`.
pub open spec fn occurs_at(s: Seq<char>, p: Seq<char>, i: int) -> bool {
    0 <= i && i + p.len() <= s.len() && s.subrange(i, i + p.len()) == p
}

/// The first position at or after `i` where `p` occurs in `s`, or -1.
pub open spec fn find_from(s: Seq<char>, p: Seq<char>, i: int) -> int
    decreases s.len() + 1 - i,
{
    if i < 0 || i + p.len() > s.len() {
        -1
    } else if occurs_at(s, p, i) {
        i
    } else {
        find_from(s, p, i + 1)
    }
}

/// The first position of `c` in `s`, or -1.
pub open spec fn find_char(s: Seq<char>, c: char) -> int {
    find_from(s, seq![c], 0)
}

/// `s` contains `p`.
pub open spec fn contains_sub(s: Seq<char>, p: Seq<char>) -> bool {
    exists|i: int| occurs_at(s, p, i)
}

/// Segments of `s` between `'\n'` characters (the last one may be empty).
pub open spec fn split_lines(s: Seq<char>) -> Seq<Seq<char>>
    decreases s.len(),
{
    if s.len() == 0 {
        seq![seq![]]
    } else {
        let r = split_lines(s.drop_last());
        if s.last() == '\n' {
            r.push(seq![])
        } else {
            r.update(r.len() - 1, r.last().push(s.last()))
        }
    }
}

/// The parts joined by `sep`.
pub open spec fn join(parts: Seq<Seq<char>>, sep: Seq<char>) -> Seq<char>
    decreases parts.len(),
{
    if parts.len() == 0 {
        seq![]
    } else if parts.len() == 1 {
        parts[0]
    } else {
        join(parts.drop_last(), sep) + sep + parts.last()
    }
}

pub proof fn lemma_split_lines_nonempty(s: Seq<char>)
    ensures
        split_lines(s).len() >= 1,
    decreases s.len(),
{
    if s.len() > 0 {
        lemma_split_lines_nonempty(s.drop_last());
    }
}

/// Bounds `(lo, hi)` of the trimmed part of `v[a..b]`.
pub fn trim_range(v: &Vec<char>, a: usize, b: usize) -> (r: (usize, usize))
    requires
        a <= b <= v@.len(),
    ensures
        a <= r.0 <= r.1 <= b,
        v@.subrange(r.0 as int, r.1 as int) == trim(v@.subrange(a as int, b as int)),
{
    let mut lo = a;
    proof {
        assert(trim_start(v@.subrange(a as int, b as int)) == trim_start(
            v@.subrange(lo as int, b as int),
        ));
    }
    while lo < b && is_ws_char(v[lo])
        invariant
            a <= lo <= b <= v@.len(),
            trim_start(v@.subrange(a as int, b as int)) == trim_start(
                v@.subrange(lo as int, b as int),
            ),
        decreases b - lo,
    {
        proof {
            assert(v@.subrange(lo as int, b as int).drop_first() =~= v@.subrange(
                lo + 1,
                b as int,
            ));
        }
        lo = lo + 1;
    }
    let mut hi = b;
    proof {
        assert(trim_start(v@.subrange(lo as int, b as int)) =~= v@.subrange(lo as int, b as int));
    }
    while hi > lo && is_ws_char(v[hi - 1])
        invariant
            a <= lo <= hi <= b <= v@.len(),
            trim(v@.subrange(a as int, b as int)) == trim_end(v@.subrange(lo as int, hi as int)),
        decreases hi - lo,
    {
        proof {
            assert(v@.subrange(lo as int, hi as int).drop_last() =~= v@.subrange(
                lo as int,
                hi - 1,
            ));
        }
        hi = hi - 1;
    }
    (lo, hi)
}

/// Whether `p` occurs in `v` at position `i`.
pub fn occurs_at_exec(v: &Vec<char>, p: &Vec<char>, i: usize) -> (b: bool)
    ensures
        b == occurs_at(v@, p@, i as int),
{
    if i > v.len() || p.len() > v.len() - i {
        return false;
    }
    let mut k: usize = 0;
    while k < p.len()
        invariant
            i + p@.len() <= v@.len(),
            i <= v.len(),
            k <= p@.len(),
            forall|t: int| 0 <= t < k ==> v@[i + t] == p@[t],
        decreases p.len() - k,
    {
        if v[i + k] != p[k] {
            proof {
                assert(v@.subrange(i as int, i + p@.len())[k as int] != p@[k as int]);
            }
            return false;
        }
        k = k + 1;
    }
    proof {
        assert(v@.subrange(i as int, i + p@.len()) =~= p@);
    }
    true
}

/// The first position at or after `from` where `p` occurs in `v`.
pub fn find_exec(v: &Vec<char>, p: &Vec<char>, from: usize) -> (r: Option<usize>)
    ensures
        match r {
            Some(i) => find_from(v@, p@, from as int) == i,
            None => find_from(v@, p@, from as int) == -1,
        },
{
    if p.len() == 0 {
        proof {
            if from <= v@.len() {
                assert(v@.subrange(from as int, from as int) =~= p@);
            }
        }
        return if from <= v.len() {
            Some(from)
        } else {
            None
        };
    }
    let mut i = from;
    while i < v.len() && p.len() <= v.len() - i
        invariant
            from <= i,
            p@.len() >= 1,
            find_from(v@, p@, from as int) == find_from(v@, p@, i as int),
        decreases v.len() - i,
    {
        if occurs_at_exec(v, p, i) {
            return Some(i);
        }
        i = i + 1;
    }
    None
}

/// Whether `v` starts with the characters of `p`.
pub fn starts_with_exec(v: &Vec<char>, p: &Vec<char>) -> (b: bool)
    ensures
        b == starts_with(v@, p@),
{
    occurs_at_exec(v, p, 0)
}

/// Joins strings with a separator.
pub fn join_strings(parts: &[String], sep: &str) -> (r: String)
    ensures
        r@ == join(parts@.map_values(|s: String| s@), sep@),
{
    let ghost ps = parts@.map_values(|s: String| s@);
    let mut out = String::new();
    let mut i: usize = 0;
    while i < parts.len()
        invariant
            ps == parts@.map_values(|s: String| s@),
            i <= parts@.len(),
            out@ == join(ps.subrange(0, i as int), sep@),
        decreases parts.len() - i,
    {
        proof {
            assert(ps.subrange(0, i + 1).drop_last() =~= ps.subrange(0, i as int));
            assert(ps.subrange(0, i + 1).last() == parts@[i as int]@);
        }
        if i > 0 {
            out.append(sep);
        }
        out.append(parts[i].as_str());
        proof {
            if i == 0 {
                assert(out@ =~= join(ps.subrange(0, 1), sep@));
            }
        }
        i = i + 1;
    }
    proof {
        assert(ps.subrange(0, i as int) =~= ps);
    }
    out
}

/// `s` without one trailing `'\r'`.
pub open spec fn strip_cr(s: Seq<char>) -> Seq<char> {
    if s.len() > 0 && s.last() == '\r' {
        s.drop_last()
    } else {
        s
    }
}

/// Lines of `s` as `str::lines` gives them: split at `'\n'`, a line ended by
/// `'\n'` also loses one `'\r'` before it, and a final empty segment is not a
/// line.
pub open spec fn text_lines(s: Seq<char>) -> Seq<Seq<char>> {
    let segs = split_lines(s);
    let n = segs.len();
    let body = Seq::new((n - 1) as nat, |k: int| strip_cr(segs[k]));
    if segs[n - 1].len() > 0 {
        body.push(segs[n - 1])
    } else {
        body
    }
}

/// The segments of a text between `'\n'` characters (`str::split('\n')`).
pub fn split_newlines(text: &str) -> (r: Vec<String>)
    ensures
        r@.map_values(|s: String| s@) == split_lines(text@),
{
    let v = crate::text::str_chars(text);
    let n = v.len();
    let mut out: Vec<String> = Vec::new();
    let mut cur: Vec<char> = Vec::new();
    let mut k: usize = 0;
    proof {
        assert(v@.subrange(0, 0) =~= Seq::<char>::empty());
        assert(split_lines(v@.subrange(0, 0)) =~~= out@.map_values(|s: String| s@).push(cur@));
    }
    while k < n
        invariant
            n == v@.len(),
            v@ == text@,
            k <= n,
            split_lines(v@.subrange(0, k as int)) == out@.map_values(|s: String| s@).push(cur@),
        decreases n - k,
    {
        let ghost t = v@.subrange(0, k + 1);
        let ghost before = out@.map_values(|s: String| s@);
        proof {
            assert(t.drop_last() =~= v@.subrange(0, k as int));
            assert(t.last() == v@[k as int]);
        }
        if v[k] == '\n' {
            let s = crate::text::chars_to_string(cur.as_slice());
            out.push(s);
            cur = Vec::new();
            proof {
                assert(out@.map_values(|s: String| s@) =~= before.push(s@));
                assert(split_lines(t) =~~= out@.map_values(|s: String| s@).push(cur@));
            }
        } else {
            let ghost c0 = cur@;
            cur.push(v[k]);
            proof {
                assert(split_lines(t) =~~= before.push(c0).update(before.len() as int, c0.push(v@[k as int])));
                assert(before.push(c0).update(before.len() as int, c0.push(v@[k as int])) =~~= before.push(cur@));
            }
        }
        k = k + 1;
    }
    let s = crate::text::chars_to_string(cur.as_slice());
    let ghost before = out@.map_values(|s: String| s@);
    out.push(s);
    proof {
        assert(v@.subrange(0, n as int) =~= v@);
        assert(out@.map_values(|s: String| s@) =~= before.push(s@));
    }
    out
}

/// The lines of a text as `str::lines` gives them.
pub fn lines_of(text: &str) -> (r: Vec<String>)
    ensures
        r@.map_values(|s: String| s@) == text_lines(text@),
{
    let segs = split_newlines(text);
    let ghost sv = segs@.map_values(|s: String| s@);
    proof {
        lemma_split_lines_nonempty(text@);
    }
    let n = segs.len();
    let mut out: Vec<String> = Vec::new();
    let mut k: usize = 0;
    while k + 1 < n
        invariant
            sv == segs@.map_values(|s: String| s@),
            sv == split_lines(text@),
            n == sv.len(),
            n >= 1,
            k <= n - 1,
            out@.map_values(|s: String| s@) == Seq::new(k as nat, |j: int| strip_cr(sv[j])),
        decreases n - k,
    {
        let v = str_chars_of(&segs[k]);
        let m = v.len();
        let end = if m > 0 && v[m - 1] == '\r' {
            m - 1
        } else {
            m
        };
        let mut w: Vec<char> = Vec::new();
        crate::text::push_chars(&mut w, &v, 0, end);
        let s = crate::text::chars_to_string(w.as_slice());
        proof {
            assert(v@ == sv[k as int]);
            if m > 0 && v@[m - 1] == '\r' {
                assert(w@ =~= sv[k as int].drop_last());
            } else {
                assert(w@ =~= sv[k as int]);
            }
        }
        let ghost before = out@.map_values(|s: String| s@);
        let ghost w_v = s@;
        out.push(s);
        proof {
            assert(w_v == strip_cr(sv[k as int]));
            assert(out@.map_values(|s: String| s@) =~= before.push(w_v));
            assert(out@.map_values(|s: String| s@) =~= Seq::new((k + 1) as nat, |j: int| strip_cr(sv[j])));
        }
        k = k + 1;
    }
    proof {
        assert(Seq::new(k as nat, |j: int| strip_cr(sv[j])) =~= Seq::new((n - 1) as nat, |j: int| strip_cr(sv[j])));
    }
    if !segs[n - 1].as_str().is_empty() {
        let last = segs[n - 1].clone();
        let ghost before = out@.map_values(|s: String| s@);
        out.push(last);
        proof {
            assert(out@.map_values(|s: String| s@) =~= before.push(sv[n - 1]));
        }
    }
    out
}

fn str_chars_of(s: &String) -> (r: Vec<char>)
    ensures
        r@ == s@,
{
    crate::text::str_chars(s.as_str())
}

/// `find_from` finds a position exactly when one exists at or after `i`.
pub proof fn lemma_find_from_exists(s: Seq<char>, p: Seq<char>, i: int)
    requires
        0 <= i,
    ensures
        find_from(s, p, i) >= 0 <==> exists|j: int| j >= i && #[trigger] occurs_at(s, p, j),
    decreases s.len() + 1 - i,
{
    if i + p.len() > s.len() {
        assert forall|j: int| j >= i implies !#[trigger] occurs_at(s, p, j) by {}
    } else if occurs_at(s, p, i) {
    } else {
        lemma_find_from_exists(s, p, i + 1);
        if exists|j: int| j >= i && #[trigger] occurs_at(s, p, j) {
            let j = choose|j: int| j >= i && #[trigger] occurs_at(s, p, j);
            assert(j >= i + 1);
        }
    }
}

/// Whether `needle` occurs in `hay`.
pub fn text_contains(hay: &str, needle: &str) -> (b: bool)
    ensures
        b == contains_sub(hay@, needle@),
{
    let v = crate::text::str_chars(hay);
    let p = crate::text::str_chars(needle);
    let r = find_exec(&v, &p, 0);
    proof {
        lemma_find_from_exists(v@, p@, 0);
        if contains_sub(hay@, needle@) {
            let j = choose|j: int| occurs_at(hay@, needle@, j);
            assert(j >= 0);
        }
    }
    r.is_some()
}

} // verus!

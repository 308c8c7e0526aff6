//! Text utilities: decimal and hexadecimal rendering of integers, and the
//! few conversions between `String`, `&str` and character vectors.
use vstd::prelude::*;

verus! {

/// The character of a decimal digit.
pub open spec fn digit_char(d: int) -> char {
    (d + 48) as char
}

/// Decimal rendering of a natural number (no sign, no leading zeros).
pub open spec fn decimal(n: nat) -> Seq<char>
    decreases n,
{
    if n < 10 {
        seq![digit_char(n as int)]
    } else {
        decimal(n / 10).push(digit_char((n % 10) as int))
    }
}

/// Decimal rendering of a signed integer.
pub open spec fn signed_decimal(n: int) -> Seq<char> {
    if n < 0 {
        seq!['-'] + decimal((-n) as nat)
    } else {
        decimal(n as nat)
    }
}

/// The lowercase character of a hexadecimal digit.
pub open spec fn hex_char(d: int) -> char {
    if d < 10 {
        (d + 48) as char
    } else {
        (d + 87) as char
    }
}

/// The lowest `n` hexadecimal digits of `v`, most significant first.
pub open spec fn hex_digits(v: nat, n: nat) -> Seq<char>
    decreases n,
{
    if n == 0 {
        seq![]
    } else {
        hex_digits(v / 16, (n - 1) as nat).push(hex_char((v % 16) as int))
    }
}

/// Hyphenated lowercase rendering of a 128-bit identifier (8-4-4-4-12 digits).
pub open spec fn uuid_text(v: nat) -> Seq<char> {
    let h = hex_digits(v, 32);
    h.subrange(0, 8) + seq!['-'] + h.subrange(8, 12) + seq!['-'] + h.subrange(12, 16) + seq!['-']
        + h.subrange(16, 20) + seq!['-'] + h.subrange(20, 32)
}

proof fn lemma_hex_digits_len(v: nat, n: nat)
    ensures
        hex_digits(v, n).len() == n,
    decreases n,
{
    if n > 0 {
        lemma_hex_digits_len(v / 16, (n - 1) as nat);
    }
}

/// A lowercase hexadecimal digit.
pub open spec fn is_hex_char(c: char) -> bool {
    ('0' <= c && c <= '9') || ('a' <= c && c <= 'f')
}

/// The value of a lowercase hexadecimal digit.
pub open spec fn hex_val(c: char) -> int {
    if c <= '9' {
        (c as int) - 48
    } else {
        (c as int) - 87
    }
}

/// The number written by hexadecimal digits, most significant first.
pub open spec fn hex_value(s: Seq<char>) -> int
    decreases s.len(),
{
    if s.len() == 0 {
        0
    } else {
        hex_value(s.drop_last()) * 16 + hex_val(s.last())
    }
}

/// `16` to the power `n`.
pub open spec fn pow16(n: nat) -> nat
    decreases n,
{
    if n == 0 {
        1
    } else {
        16 * pow16((n - 1) as nat)
    }
}

/// The digits of an 8-4-4-4-12 identifier text, without its hyphens.
pub open spec fn uuid_digits(s: Seq<char>) -> Seq<char> {
    s.subrange(0, 8) + s.subrange(9, 13) + s.subrange(14, 18) + s.subrange(19, 23) + s.subrange(
        24,
        36,
    )
}

/// The value written by a hyphenated lowercase identifier text (8-4-4-4-12
/// hexadecimal digits), if the text is one.
pub open spec fn uuid_value(s: Seq<char>) -> Option<u128> {
    if s.len() == 36 && s[8] == '-' && s[13] == '-' && s[18] == '-' && s[23] == '-' && forall|
        i: int,
    | 0 <= i < 32 ==> is_hex_char(#[trigger] uuid_digits(s)[i]) {
        Some(hex_value(uuid_digits(s)) as u128)
    } else {
        None
    }
}

proof fn lemma_hex_digits_are_hex(v: nat, n: nat)
    ensures
        forall|i: int| 0 <= i < n ==> is_hex_char(#[trigger] hex_digits(v, n)[i]),
    decreases n,
{
    if n > 0 {
        lemma_hex_digits_len(v / 16, (n - 1) as nat);
        lemma_hex_digits_are_hex(v / 16, (n - 1) as nat);
        let d = hex_digits(v / 16, (n - 1) as nat);
        assert forall|i: int| 0 <= i < n implies is_hex_char(#[trigger] hex_digits(v, n)[i]) by {
            if i < n - 1 {
                assert(hex_digits(v, n)[i] == d[i]);
            }
        }
    }
}

proof fn lemma_hex_value_of_digits(v: nat, n: nat)
    ensures
        hex_value(hex_digits(v, n)) == v % pow16(n),
    decreases n,
{
    if n == 0 {
        assert(hex_digits(v, n) =~= Seq::<char>::empty());
    } else {
        let p = pow16((n - 1) as nat);
        lemma_hex_value_of_digits(v / 16, (n - 1) as nat);
        let d = hex_digits(v / 16, (n - 1) as nat);
        let s = hex_digits(v, n);
        assert(s.drop_last() =~= d);
        assert(s.last() == hex_char((v % 16) as int));
        assert(hex_val(hex_char((v % 16) as int)) == v % 16);
        assert(pow16(n) == 16 * p);
        assert(p > 0) by {
            lemma_pow16_pos((n - 1) as nat);
        }
        vstd::arithmetic::div_mod::lemma_mod_breakdown(v as int, 16, p as int);
    }
}

proof fn lemma_pow16_pos(n: nat)
    ensures
        pow16(n) > 0,
    decreases n,
{
    if n > 0 {
        lemma_pow16_pos((n - 1) as nat);
    }
}

/// The text of a 128-bit identifier reads back as that identifier.
pub proof fn lemma_uuid_text_value(v: u128)
    ensures
        uuid_value(uuid_text(v as nat)) == Some(v),
{
    let h = hex_digits(v as nat, 32);
    lemma_hex_digits_len(v as nat, 32);
    lemma_hex_digits_are_hex(v as nat, 32);
    lemma_hex_value_of_digits(v as nat, 32);
    let s = uuid_text(v as nat);
    assert(s.len() == 36);
    assert(s[8] == '-' && s[13] == '-' && s[18] == '-' && s[23] == '-');
    assert(uuid_digits(s) =~= h);
    assert(pow16(32) == 0x1_0000_0000_0000_0000_0000_0000_0000_0000nat) by {
        reveal_with_fuel(pow16, 33);
    }
    vstd::arithmetic::div_mod::lemma_small_mod(v as nat, pow16(32));
}

/// Appends one character (std `String::push`).
#[verifier::external_body]
pub fn push_char(s: &mut String, c: char)
    ensures
        final(s)@ == old(s)@.push(c),
{
    s.push(c)
}

/// The characters of a string slice (std `FromIterator` over `str::chars`).
#[verifier::external_body]
pub fn str_chars(s: &str) -> (res: Vec<char>)
    ensures
        res@ == s@,
{
    s.chars().collect()
}

/// A string made of the given characters (std `FromIterator<&char>` for `String`).
#[verifier::external_body]
pub fn chars_to_string(v: &[char]) -> (res: String)
    ensures
        res@ == v@,
{
    v.iter().collect()
}

/// Appends a string slice.
pub fn push_str(s: &mut String, t: &str)
    ensures
        final(s)@ == old(s)@ + t@,
{
    s.append(t);
}

/// Appends characters `v[lo..hi]`.
pub fn push_chars(out: &mut Vec<char>, v: &Vec<char>, lo: usize, hi: usize)
    requires
        lo <= hi <= v@.len(),
    ensures
        final(out)@ == old(out)@ + v@.subrange(lo as int, hi as int),
{
    let mut i = lo;
    while i < hi
        invariant
            lo <= i <= hi <= v@.len(),
            out@ == old(out)@ + v@.subrange(lo as int, i as int),
        decreases hi - i,
    {
        out.push(v[i]);
        proof {
            assert(v@.subrange(lo as int, i + 1) =~= v@.subrange(lo as int, i as int).push(v@[i as int]));
        }
        i = i + 1;
    }
}

/// Appends all characters of a string slice to a character vector.
pub fn push_str_chars(out: &mut Vec<char>, t: &str)
    ensures
        final(out)@ == old(out)@ + t@,
{
    let v = str_chars(t);
    push_chars(out, &v, 0, v.len());
    proof {
        assert(v@.subrange(0, v@.len() as int) =~= v@);
    }
}

fn digit(d: u64) -> (c: char)
    requires
        d < 10,
    ensures
        c == digit_char(d as int),
{
    let b: u8 = (d as u8) + 48u8;
    b as char
}

/// Decimal text of an unsigned integer.
pub fn u64_text(n: u64) -> (s: String)
    ensures
        s@ == decimal(n as nat),
    decreases n,
{
    if n < 10 {
        let mut s = String::new();
        push_char(&mut s, digit(n));
        proof {
            assert(s@ =~= decimal(n as nat));
        }
        s
    } else {
        let mut s = u64_text(n / 10);
        push_char(&mut s, digit(n % 10));
        s
    }
}

/// Decimal text of a signed integer.
pub fn i64_text(n: i64) -> (s: String)
    ensures
        s@ == signed_decimal(n as int),
{
    if n < 0 {
        let m: u64 = (-(n as i128)) as u64;
        let mut s = String::new();
        push_char(&mut s, '-');
        let t = u64_text(m);
        push_str(&mut s, t.as_str());
        proof {
            assert(s@ =~= signed_decimal(n as int));
        }
        s
    } else {
        u64_text(n as u64)
    }
}

fn hex_digit_char(d: u128) -> (c: char)
    requires
        d < 16,
    ensures
        c == hex_char(d as int),
{
    if d < 10 {
        let b: u8 = (d as u8) + 48u8;
        b as char
    } else {
        let b: u8 = (d as u8) + 87u8;
        b as char
    }
}

fn hex_chars(v: u128, n: u8) -> (r: Vec<char>)
    ensures
        r@ == hex_digits(v as nat, n as nat),
    decreases n,
{
    if n == 0 {
        let r: Vec<char> = Vec::new();
        proof {
            assert(r@ =~= hex_digits(v as nat, n as nat));
        }
        r
    } else {
        let mut r = hex_chars(v / 16, n - 1);
        r.push(hex_digit_char(v % 16));
        r
    }
}

/// Hyphenated lowercase rendering of a 128-bit identifier.
pub fn uuid_string(v: u128) -> (s: String)
    ensures
        s@ == uuid_text(v as nat),
{
    let h = hex_chars(v, 32);
    proof {
        lemma_hex_digits_len(v as nat, 32);
    }
    let mut out: Vec<char> = Vec::new();
    push_chars(&mut out, &h, 0, 8);
    out.push('-');
    push_chars(&mut out, &h, 8, 12);
    out.push('-');
    push_chars(&mut out, &h, 12, 16);
    out.push('-');
    push_chars(&mut out, &h, 16, 20);
    out.push('-');
    push_chars(&mut out, &h, 20, 32);
    proof {
        assert(out@ =~= uuid_text(v as nat));
    }
    chars_to_string(out.as_slice())
}

fn digit128(d: u128) -> (c: char)
    requires
        d < 10,
    ensures
        c == digit_char(d as int),
{
    let b: u8 = (d as u8) + 48u8;
    b as char
}

/// Decimal text of a 128-bit unsigned integer.
pub fn u128_text(n: u128) -> (s: String)
    ensures
        s@ == decimal(n as nat),
    decreases n,
{
    if n < 10 {
        let mut s = String::new();
        push_char(&mut s, digit128(n));
        proof {
            assert(s@ =~= decimal(n as nat));
        }
        s
    } else {
        let mut s = u128_text(n / 10);
        push_char(&mut s, digit128(n % 10));
        s
    }
}

} // verus!

//! Character-level primitives shared by the parsers: character classes,
//! maximal runs, literal matching, decimal numbers and string building.

use vstd::prelude::*;

verus! {

/// Relies on `String::push`: appends one character.
#[verifier::external_body]
pub(crate) fn push_char(s: &mut String, c: char)
    ensures
        final(s)@ == old(s)@.push(c),
{
    s.push(c)
}

/// The characters of `s`, in order, for constant-time indexing.
pub fn chars_of(s: &str) -> (r: Vec<char>)
    ensures
        r@ == s@,
{
    let mut r: Vec<char> = Vec::new();
    for c in it: s.chars()
        invariant
            r@ == it.seq().take(it.index() as int),
    {
        r.push(c);
    }
    r
}

/// A copy of `t[a..b]`.
pub fn copy_range(t: &Vec<char>, a: usize, b: usize) -> (r: Vec<char>)
    requires
        a <= b <= t@.len(),
    ensures
        r@ == t@.subrange(a as int, b as int),
{
    let mut r: Vec<char> = Vec::new();
    let mut i: usize = a;
    while i < b
        invariant
            a <= i <= b <= t@.len(),
            r@ == t@.subrange(a as int, i as int),
        decreases b - i,
    {
        r.push(t[i]);
        assert(t@.subrange(a as int, i + 1) == t@.subrange(a as int, i as int).push(t@[i as int]));
        i = i + 1;
    }
    r
}

/// A `String` holding `t[a..b]`.
pub fn string_of(t: &Vec<char>, a: usize, b: usize) -> (r: String)
    requires
        a <= b <= t@.len(),
    ensures
        r@ == t@.subrange(a as int, b as int),
{
    let mut r = String::new();
    let mut i: usize = a;
    while i < b
        invariant
            a <= i <= b <= t@.len(),
            r@ == t@.subrange(a as int, i as int),
        decreases b - i,
    {
        push_char(&mut r, t[i]);
        assert(t@.subrange(a as int, i + 1) == t@.subrange(a as int, i as int).push(t@[i as int]));
        i = i + 1;
    }
    r
}


/// Unicode `White_Space`, the set that `char::is_whitespace` and `str::trim` use.
pub open spec fn is_ws(c: char) -> bool {
    let u = c as u32;
    u == 0x20 || (0x09 <= u <= 0x0d) || u == 0x85 || u == 0xa0 || u == 0x1680 || (0x2000 <= u
        <= 0x200a) || u == 0x2028 || u == 0x2029 || u == 0x202f || u == 0x205f || u == 0x3000
}

pub open spec fn is_digit(c: char) -> bool {
    '0' <= c <= '9'
}

pub open spec fn is_hex(c: char) -> bool {
    is_digit(c) || ('a' <= c <= 'f') || ('A' <= c <= 'F')
}

pub open spec fn is_alnum(c: char) -> bool {
    is_digit(c) || ('a' <= c <= 'z') || ('A' <= c <= 'Z')
}

/// The character classes that the tool-output grammars are written in.
#[derive(Clone, Copy, PartialEq, Eq, Debug)]
pub enum CharClass {
    /// Unicode white space.
    Space,
    /// `0-9`.
    Digit,
    /// `0-9 A-Z a-z . _ -`: an interface name.
    IfaceName,
    /// `0-9 A-Z a-z _`: a registry key.
    KeyName,
    /// `0-9 a-f A-F :`: an IPv6 address or a hardware address.
    HexColon,
    /// `0-9 a-f A-F` and the space: a spaced hex byte list.
    HexSpace,
    /// Anything but a line feed.
    NotNewline,
    /// Anything but `"`.
    NotQuote,
    /// Anything but `>`.
    NotGreater,
    /// `"`.
    Quote,
    /// `0-9 a-f A-F`.
    Hex,
    /// `0-9 . -`: the characters of a decimal reading.
    Numeric,
}

pub open spec fn in_class(c: char, k: CharClass) -> bool {
    match k {
        CharClass::Space => is_ws(c),
        CharClass::Digit => is_digit(c),
        CharClass::IfaceName => is_alnum(c) || c == '.' || c == '_' || c == '-',
        CharClass::KeyName => is_alnum(c) || c == '_',
        CharClass::HexColon => is_hex(c) || c == ':',
        CharClass::HexSpace => is_hex(c) || c == ' ',
        CharClass::NotNewline => c != '\n',
        CharClass::NotQuote => c != '"',
        CharClass::NotGreater => c != '>',
        CharClass::Quote => c == '"',
        CharClass::Hex => is_hex(c),
        CharClass::Numeric => is_digit(c) || c == '.' || c == '-',
    }
}

pub fn class_has(c: char, k: CharClass) -> (r: bool)
    ensures
        r == in_class(c, k),
{
    let u = c as u32;
    let digit = '0' <= c && c <= '9';
    let alnum = digit || ('a' <= c && c <= 'z') || ('A' <= c && c <= 'Z');
    let hex = digit || ('a' <= c && c <= 'f') || ('A' <= c && c <= 'F');
    match k {
        CharClass::Space => u == 0x20 || (0x09 <= u && u <= 0x0d) || u == 0x85 || u == 0xa0 || u
            == 0x1680 || (0x2000 <= u && u <= 0x200a) || u == 0x2028 || u == 0x2029 || u == 0x202f
            || u == 0x205f || u == 0x3000,
        CharClass::Digit => digit,
        CharClass::IfaceName => alnum || c == '.' || c == '_' || c == '-',
        CharClass::KeyName => alnum || c == '_',
        CharClass::HexColon => hex || c == ':',
        CharClass::HexSpace => hex || c == ' ',
        CharClass::NotNewline => c != '\n',
        CharClass::NotQuote => c != '"',
        CharClass::NotGreater => c != '>',
        CharClass::Quote => c == '"',
        CharClass::Hex => hex,
        CharClass::Numeric => digit || c == '.' || c == '-',
    }
}

/// End of the longest run of class `k` that starts at `p` and stays before `e`.
pub open spec fn run_end(t: Seq<char>, p: int, e: int, k: CharClass) -> int
    decreases e - p,
{
    if p < e && in_class(t[p], k) {
        run_end(t, p + 1, e, k)
    } else {
        p
    }
}

pub proof fn lemma_run_end(t: Seq<char>, p: int, e: int, k: CharClass)
    requires
        0 <= p <= e <= t.len(),
    ensures
        p <= run_end(t, p, e, k) <= e,
        forall|i: int| p <= i < run_end(t, p, e, k) ==> in_class(#[trigger] t[i], k),
        run_end(t, p, e, k) < e ==> !in_class(t[run_end(t, p, e, k)], k),
    decreases e - p,
{
    if p < e && in_class(t[p], k) {
        lemma_run_end(t, p + 1, e, k);
    }
}

pub fn skip_run(t: &Vec<char>, p: usize, e: usize, k: CharClass) -> (r: usize)
    requires
        p <= e <= t@.len(),
    ensures
        r == run_end(t@, p as int, e as int, k),
        p <= r <= e,
{
    proof {
        lemma_run_end(t@, p as int, e as int, k);
    }
    let mut i = p;
    while i < e && class_has(t[i], k)
        invariant
            p <= i <= e <= t@.len(),
            run_end(t@, i as int, e as int, k) == run_end(t@, p as int, e as int, k),
        decreases e - i,
    {
        i = i + 1;
    }
    i
}

/// End of the line that holds `p`: the next line feed, or the end of the text.
pub open spec fn line_end(t: Seq<char>, p: int) -> int {
    run_end(t, p, t.len() as int, CharClass::NotNewline)
}

/// `lit` stands in `t` at `p`, before `e`.
pub open spec fn lit_at(t: Seq<char>, p: int, e: int, lit: Seq<char>) -> bool {
    0 <= p && p + lit.len() <= e && e <= t.len() && t.subrange(p, p + lit.len()) == lit
}

pub fn has_lit(t: &Vec<char>, p: usize, e: usize, lit: &str) -> (r: bool)
    requires
        e <= t@.len(),
    ensures
        r == lit_at(t@, p as int, e as int, lit@),
{
    let l = chars_of(lit);
    let n = l.len();
    if p > e || n > e - p {
        return false;
    }
    let mut i: usize = 0;
    while i < n
        invariant
            0 <= i <= n,
            n == l@.len(),
            l@ == lit@,
            p + n <= e <= t@.len(),
            forall|j: int| 0 <= j < i ==> t@[p + j] == l@[j],
        decreases n - i,
    {
        if t[p + i] != l[i] {
            assert(t@.subrange(p as int, p + n)[i as int] != lit@[i as int]);
            return false;
        }
        i = i + 1;
    }
    assert(t@.subrange(p as int, p + n) =~= lit@);
    true
}

/// ASCII lower case of one character; every other character is kept.
pub open spec fn ascii_lower(c: char) -> char {
    if 'A' <= c <= 'Z' {
        (((c as u32) + 32) as u8) as char
    } else {
        c
    }
}

pub open spec fn ascii_lower_seq(s: Seq<char>) -> Seq<char> {
    Seq::new(s.len(), |i: int| ascii_lower(s[i]))
}

/// `lit`, written in lower case, stands in `t` at `p` when ASCII case is ignored.
pub open spec fn lit_at_ci(t: Seq<char>, p: int, e: int, lit: Seq<char>) -> bool {
    0 <= p && p + lit.len() <= e && e <= t.len() && ascii_lower_seq(t.subrange(p, p + lit.len()))
        == lit
}

pub fn lower_char(c: char) -> (r: char)
    ensures
        r == ascii_lower(c),
{
    if 'A' <= c && c <= 'Z' {
        (((c as u32) + 32) as u8) as char
    } else {
        c
    }
}


/// Start of the longest run of class `k` that ends at `e` and stays after `a`.
pub open spec fn run_back(t: Seq<char>, a: int, e: int, k: CharClass) -> int
    decreases e - a,
{
    if a < e && in_class(t[e - 1], k) {
        run_back(t, a, e - 1, k)
    } else {
        e
    }
}

pub proof fn lemma_run_back(t: Seq<char>, a: int, e: int, k: CharClass)
    requires
        0 <= a <= e <= t.len(),
    ensures
        a <= run_back(t, a, e, k) <= e,
    decreases e - a,
{
    if a < e && in_class(t[e - 1], k) {
        lemma_run_back(t, a, e - 1, k);
    }
}

pub fn skip_back(t: &Vec<char>, a: usize, e: usize, k: CharClass) -> (r: usize)
    requires
        a <= e <= t@.len(),
    ensures
        r == run_back(t@, a as int, e as int, k),
        a <= r <= e,
{
    proof {
        lemma_run_back(t@, a as int, e as int, k);
    }
    let mut i = e;
    while a < i && class_has(t[i - 1], k)
        invariant
            a <= i <= e <= t@.len(),
            run_back(t@, a as int, i as int, k) == run_back(t@, a as int, e as int, k),
        decreases i - a,
    {
        i = i - 1;
    }
    i
}

/// `s` with the characters of class `k` taken from both ends (`str::trim` for white space,
/// `str::trim_matches` for a single character).
pub open spec fn strip(s: Seq<char>, k: CharClass) -> Seq<char> {
    let a = run_end(s, 0, s.len() as int, k);
    s.subrange(a, run_back(s, a, s.len() as int, k))
}

/// The bounds of `strip(t[a..e], k)` inside `t`.
pub fn strip_range(t: &Vec<char>, a: usize, e: usize, k: CharClass) -> (r: (usize, usize))
    requires
        a <= e <= t@.len(),
    ensures
        a <= r.0 <= r.1 <= e,
        t@.subrange(r.0 as int, r.1 as int) == strip(t@.subrange(a as int, e as int), k),
{
    let s = skip_run(t, a, e, k);
    let f = skip_back(t, s, e, k);
    proof {
        let u = t@.subrange(a as int, e as int);
        lemma_run_end_shift(t@, u, a as int, a as int, e as int, k);
        lemma_run_back_shift(t@, u, a as int, s as int, e as int, k);
        lemma_run_end(u, 0, u.len() as int, k);
        assert(t@.subrange(s as int, f as int) == u.subrange(s - a, f - a));
    }
    (s, f)
}

/// `run_end` read on a window `u == t[a..e]`.
pub proof fn lemma_run_end_shift(t: Seq<char>, u: Seq<char>, a: int, p: int, e: int, k: CharClass)
    requires
        0 <= a <= p <= e <= t.len(),
        u == t.subrange(a, e),
    ensures
        run_end(u, p - a, u.len() as int, k) == run_end(t, p, e, k) - a,
    decreases e - p,
{
    if p < e && in_class(t[p], k) {
        lemma_run_end_shift(t, u, a, p + 1, e, k);
    }
}

/// `run_back` read on a window `u == t[a..e]`.
pub proof fn lemma_run_back_shift(t: Seq<char>, u: Seq<char>, a: int, b: int, e: int, k: CharClass)
    requires
        0 <= a <= b <= e <= t.len(),
        u == t.subrange(a, e),
    ensures
        run_back(u, b - a, u.len() as int, k) == run_back(t, b, e, k) - a,
    decreases e - b,
{
    lemma_run_back_window(t, u, a, b, e, e, k);
}

proof fn lemma_run_back_window(t: Seq<char>, u: Seq<char>, a: int, b: int, e: int, f: int, k: CharClass)
    requires
        0 <= a <= b <= f <= e <= t.len(),
        u == t.subrange(a, e),
    ensures
        run_back(u, b - a, f - a, k) == run_back(t, b, f, k) - a,
    decreases f - b,
{
    if b < f && in_class(t[f - 1], k) {
        lemma_run_back_window(t, u, a, b, e, f - 1, k);
    }
}

pub open spec fn digit_value(c: char) -> int {
    (c as u32) - 48
}

/// The value of a string of decimal digits.
pub open spec fn decimal_value(s: Seq<char>) -> nat
    decreases s.len(),
{
    if s.len() == 0 {
        0
    } else {
        (decimal_value(s.drop_last()) * 10 + digit_value(s.last())) as nat
    }
}

pub open spec fn all_digits(s: Seq<char>) -> bool {
    forall|i: int| 0 <= i < s.len() ==> is_digit(#[trigger] s[i])
}

/// What `str::parse` accepts for an unsigned integer: an optional `+`, then ASCII digits.
pub open spec fn unsigned_text(s: Seq<char>) -> Option<nat> {
    let d = if s.len() > 0 && s[0] == '+' {
        s.drop_first()
    } else {
        s
    };
    if d.len() > 0 && all_digits(d) {
        Some(decimal_value(d))
    } else {
        None
    }
}

pub open spec fn pow10(n: nat) -> nat
    decreases n,
{
    if n == 0 {
        1
    } else {
        10 * pow10((n - 1) as nat)
    }
}

/// `n` digits make a number below `10^n`.
pub proof fn lemma_decimal_bound(s: Seq<char>)
    requires
        all_digits(s),
    ensures
        decimal_value(s) < pow10(s.len()),
    decreases s.len(),
{
    if s.len() > 0 {
        assert(all_digits(s.drop_last())) by {
            assert forall|i: int| 0 <= i < s.len() - 1 implies is_digit(s.drop_last()[i]) by {
                assert(is_digit(s[i]));
            }
        }
        lemma_decimal_bound(s.drop_last());
        assert(is_digit(s[s.len() - 1]));
    }
}

proof fn lemma_decimal_prefix(s: Seq<char>, n: int)
    requires
        0 <= n <= s.len(),
        all_digits(s),
    ensures
        decimal_value(s.subrange(0, n)) <= decimal_value(s),
    decreases s.len(),
{
    if n < s.len() {
        lemma_decimal_prefix(s.drop_last(), n);
        assert(s.drop_last().subrange(0, n) == s.subrange(0, n));
        assert(digit_value(s.last()) >= 0) by {
            assert(is_digit(s[s.len() - 1]));
        }
    } else {
        assert(s.subrange(0, n) == s);
    }
}

/// The value of the digits `t[a..b]`, if it is at most `max`.
pub fn parse_digits(t: &Vec<char>, a: usize, b: usize, max: u64) -> (r: Option<u64>)
    requires
        a <= b <= t@.len(),
        all_digits(t@.subrange(a as int, b as int)),
    ensures
        r is Some <==> decimal_value(t@.subrange(a as int, b as int)) <= max,
        r is Some ==> r->0 == decimal_value(t@.subrange(a as int, b as int)),
{
    let ghost s = t@.subrange(a as int, b as int);
    let mut acc: u64 = 0;
    let mut i: usize = a;
    assert(t@.subrange(a as int, a as int) =~= Seq::<char>::empty());
    while i < b
        invariant
            a <= i <= b <= t@.len(),
            s == t@.subrange(a as int, b as int),
            all_digits(s),
            acc == decimal_value(t@.subrange(a as int, i as int)),
            acc <= max,
        decreases b - i,
    {
        assert(t@.subrange(a as int, i + 1).drop_last() =~= t@.subrange(a as int, i as int));
        assert(is_digit(s[i - a]));
        let d: u64 = ((t[i] as u32) - 48) as u64;
        if d > max || acc > (max - d) / 10 {
            proof {
                assert(acc * 10 + d > max) by (nonlinear_arith)
                    requires
                        d > max || acc > (max - d) / 10,
                        d <= 9,
                ;
                assert(s.subrange(0, i + 1 - a) =~= t@.subrange(a as int, i + 1));
                lemma_decimal_prefix(s, i + 1 - a);
            }
            return None;
        }
        assert(acc * 10 + d <= max) by (nonlinear_arith)
            requires
                acc <= (max - d) / 10,
                d <= max,
        ;
        acc = acc * 10 + d;
        i = i + 1;
    }
    Some(acc)
}

/// `unsigned_text(t[a..b])`, if it is at most `max`.
pub fn parse_unsigned(t: &Vec<char>, a: usize, b: usize, max: u64) -> (r: Option<u64>)
    requires
        a <= b <= t@.len(),
    ensures
        r is Some <==> (unsigned_text(t@.subrange(a as int, b as int)) is Some && unsigned_text(
            t@.subrange(a as int, b as int),
        )->0 <= max),
        r is Some ==> r->0 == unsigned_text(t@.subrange(a as int, b as int))->0,
{
    let ghost s = t@.subrange(a as int, b as int);
    let start = if a < b && t[a] == '+' {
        a + 1
    } else {
        a
    };
    assert(t@.subrange(start as int, b as int) =~= (if s.len() > 0 && s[0] == '+' {
        s.drop_first()
    } else {
        s
    }));
    let e = skip_run(t, start, b, CharClass::Digit);
    proof {
        lemma_run_end(t@, start as int, b as int, CharClass::Digit);
    }
    if start == b || e != b {
        proof {
            if start < b {
                assert(!is_digit(t@.subrange(start as int, b as int)[e - start]));
            }
        }
        return None;
    }
    assert(all_digits(t@.subrange(start as int, b as int)));
    parse_digits(t, start, b, max)
}

pub fn has_lit_ci(t: &Vec<char>, p: usize, e: usize, lit: &str) -> (r: bool)
    requires
        e <= t@.len(),
    ensures
        r == lit_at_ci(t@, p as int, e as int, lit@),
{
    let l = chars_of(lit);
    let n = l.len();
    if p > e || n > e - p {
        return false;
    }
    let mut i: usize = 0;
    while i < n
        invariant
            0 <= i <= n,
            n == l@.len(),
            l@ == lit@,
            p + n <= e <= t@.len(),
            forall|j: int| 0 <= j < i ==> ascii_lower(#[trigger] t@[p + j]) == l@[j],
        decreases n - i,
    {
        if lower_char(t[p + i]) != l[i] {
            assert(ascii_lower_seq(t@.subrange(p as int, p + n))[i as int] != lit@[i as int]);
            return false;
        }
        i = i + 1;
    }
    assert forall|j: int| 0 <= j < n implies ascii_lower_seq(t@.subrange(p as int, p + n))[j]
        == lit@[j] by {
        assert(ascii_lower(t@[p + j]) == l@[j]);
    }
    assert(ascii_lower_seq(t@.subrange(p as int, p + n)) =~= lit@);
    true
}

/// `lit`, written in lower case, occurs in `t` when ASCII case is ignored.
pub open spec fn contains_ci(t: Seq<char>, lit: Seq<char>) -> bool {
    exists|p: int| lit_at_ci(t, p, t.len() as int, lit)
}

pub fn find_ci(t: &Vec<char>, lit: &str) -> (r: bool)
    ensures
        r == contains_ci(t@, lit@),
{
    let n = t.len();
    let mut p: usize = 0;
    while p < n
        invariant
            n == t@.len(),
            p <= n,
            forall|q: int| 0 <= q < p ==> !lit_at_ci(t@, q, n as int, lit@),
        decreases n - p,
    {
        if has_lit_ci(t, p, n, lit) {
            return true;
        }
        p = p + 1;
    }
    has_lit_ci(t, n, n, lit)
}

pub open spec fn opt_text(o: Option<String>) -> Option<Seq<char>> {
    match o {
        Some(s) => Some(s@),
        None => None,
    }
}

pub open spec fn texts_view(v: Seq<String>) -> Seq<Seq<char>> {
    v.map_values(|s: String| s@)
}

/// Length of an optional leading sign.
pub open spec fn sign_len(s: Seq<char>) -> int {
    if s.len() > 0 && (s[0] == '-' || s[0] == '+') {
        1
    } else {
        0
    }
}

/// A plain decimal as `f32`'s `FromStr` reads it: an optional sign, digits, and an optional
/// `.` with digits, with at least one digit in all. Whether it is negative, its whole
/// digits and its fraction digits.
pub open spec fn decimal_parts(s: Seq<char>) -> Option<(bool, Seq<char>, Seq<char>)> {
    let a = sign_len(s);
    let n = s.len() as int;
    let w = run_end(s, a, n, CharClass::Digit);
    let neg = a == 1 && s[0] == '-';
    if w == n && w > a {
        Some((neg, s.subrange(a, n), Seq::empty()))
    } else if w < n && s[w] == '.' && all_digits(s.subrange(w + 1, n)) && (w > a || n > w + 1) {
        Some((neg, s.subrange(a, w), s.subrange(w + 1, n)))
    } else {
        None
    }
}

/// The first `k` fraction digits, padded with zeros, as a number.
pub open spec fn frac_units(f: Seq<char>, k: nat) -> nat
    decreases k,
{
    if k == 0 {
        0
    } else {
        (frac_units(f, (k - 1) as nat) * 10 + if k - 1 < f.len() {
            digit_value(f[k - 1])
        } else {
            0
        }) as nat
    }
}

/// A decimal reading in units of `10^-k`, truncated toward zero; absent when the text is
/// no plain decimal or its whole part is above `i32::MAX`.
pub open spec fn fixed_point(s: Seq<char>, k: nat) -> Option<int> {
    match decimal_parts(s) {
        Some(d) => if decimal_value(d.1) <= i32::MAX {
            let m = (decimal_value(d.1) * pow10(k) + frac_units(d.2, k)) as int;
            Some(
                if d.0 {
                    -m
                } else {
                    m
                },
            )
        } else {
            None
        },
        None => None,
    }
}

proof fn lemma_frac_units_bound(f: Seq<char>, k: nat)
    requires
        all_digits(f),
    ensures
        frac_units(f, k) < pow10(k),
    decreases k,
{
    if k > 0 {
        lemma_frac_units_bound(f, (k - 1) as nat);
        if k - 1 < f.len() {
            assert(is_digit(f[k - 1]));
        }
    }
}

/// `fixed_point(v, k)`, for `k` up to 3.
pub fn parse_fixed(v: &Vec<char>, k: usize) -> (r: Option<i64>)
    requires
        k <= 3,
    ensures
        r is Some <==> fixed_point(v@, k as nat) is Some,
        r matches Some(x) ==> fixed_point(v@, k as nat) == Some(x as int),
{
    let n = v.len();
    let a: usize = if n > 0 && (v[0] == '-' || v[0] == '+') {
        1
    } else {
        0
    };
    let neg = a == 1 && v[0] == '-';
    let w = skip_run(v, a, n, CharClass::Digit);
    proof {
        lemma_run_end(v@, a as int, n as int, CharClass::Digit);
    }
    let fs: usize = if w == n && w > a {
        n
    } else if w < n && v[w] == '.' {
        let e = skip_run(v, w + 1, n, CharClass::Digit);
        proof {
            lemma_run_end(v@, w + 1, n as int, CharClass::Digit);
        }
        if e != n {
            proof {
                assert(!is_digit(v@.subrange(w + 1, n as int)[e - w - 1]));
            }
            return None;
        }
        if !(w > a || n > w + 1) {
            return None;
        }
        w + 1
    } else {
        return None;
    };
    let ghost f = v@.subrange(fs as int, n as int);
    proof {
        if fs == n {
            assert(f =~= Seq::<char>::empty());
        }
        assert(all_digits(v@.subrange(a as int, w as int)));
        assert(all_digits(f));
    }
    let whole = match parse_digits(v, a, w, 2147483647) {
        Some(x) => x,
        None => {
            return None;
        },
    };
    let mut acc: u64 = 0;
    let mut p: u64 = 1;
    let mut j: usize = 0;
    while j < k
        invariant
            j <= k,
            k <= 3,
            fs <= n,
            n == v@.len(),
            f == v@.subrange(fs as int, n as int),
            all_digits(f),
            acc == frac_units(f, j as nat),
            acc < pow10(j as nat),
            p == pow10(j as nat),
            p <= 1000,
        decreases k - j,
    {
        assert(f.len() == n - fs);
        let d: u64 = if j < n - fs {
            assert(is_digit(f[j as int]));
            assert(f[j as int] == v@[fs + j]);
            ((v[fs + j] as u32) - 48) as u64
        } else {
            0
        };
        proof {
            lemma_frac_units_bound(f, (j + 1) as nat);
        }
        acc = acc * 10 + d;
        p = p * 10;
        j = j + 1;
        assert(p <= 1000) by {
            assert(pow10(0) == 1 && pow10(1) == 10 && pow10(2) == 100 && pow10(3) == 1000) by {
                reveal_with_fuel(pow10, 4);
            }
        }
    }
    assert(whole * p <= 2147483647 * 1000) by (nonlinear_arith)
        requires
            whole <= 2147483647,
            p <= 1000,
    ;
    let m: u64 = whole * p + acc;
    proof {
        if w == n && w > a {
            assert(v@.subrange(a as int, n as int) == v@.subrange(a as int, w as int));
        }
    }
    if neg {
        Some(-(m as i64))
    } else {
        Some(m as i64)
    }
}

/// A text equal to `lit`.
pub fn is_text(t: &Vec<char>, lit: &str) -> (r: bool)
    ensures
        r == (t@ == lit@),
{
    let n = lit.unicode_len();
    if t.len() != n {
        return false;
    }
    let r = has_lit(t, 0, t.len(), lit);
    assert(t@.subrange(0, t@.len() as int) =~= t@);
    r
}

} // verus!

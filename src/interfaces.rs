//! The interface dump: one block per interface, each starting at a header line
//! `name: flags=... mtu N`; inside a block, address lines, a hardware address
//! line, a status line and the flag list.

use crate::text::{
    all_digits, ascii_lower, ascii_lower_seq, chars_of, class_has, decimal_value, has_lit, has_lit_ci,
    is_digit, lemma_run_end, line_end, lit_at, lit_at_ci, lower_char, opt_text, parse_digits,
    push_char, run_end, skip_run, string_of, texts_view, CharClass,
};
use crate::order::{
    lemma_text_le_antisym, lemma_text_le_refl, lemma_text_le_total, lemma_text_le_trans, text_le,
    text_le_exec,
};
use vstd::prelude::*;
use vstd::seq_lib::to_multiset_insert;

verus! {

/// End of the interface name that a line starting at `p` begins with.
pub open spec fn name_end(t: Seq<char>, p: int) -> int {
    run_end(t, p, line_end(t, p), CharClass::IfaceName)
}

/// Where `flags=` must stand: after the name, `:` and white space.
pub open spec fn flags_pos(t: Seq<char>, p: int) -> int {
    run_end(t, name_end(t, p) + 1, line_end(t, p), CharClass::Space)
}

/// `mtu`, white space, then a digit, at `q` in a line ending at `e`.
pub open spec fn mtu_at(t: Seq<char>, q: int, e: int) -> bool {
    let w = run_end(t, q + 3, e, CharClass::Space);
    lit_at(t, q, e, "mtu"@) && q + 3 < w < e && is_digit(t[w])
}

/// The first `mtu` at or after `q` (the header's `.*?` is lazy).
pub open spec fn first_mtu(t: Seq<char>, q: int, e: int) -> Option<int>
    decreases e - q,
{
    if q < 0 || q >= e {
        None
    } else if mtu_at(t, q, e) {
        Some(q)
    } else {
        first_mtu(t, q + 1, e)
    }
}

/// The line that starts at `p` is an interface header: `name:`, white space, `flags=`,
/// and later on the line `mtu` with a number.
pub open spec fn header_at(t: Seq<char>, p: int) -> bool {
    let e = line_end(t, p);
    let n = name_end(t, p);
    let f = flags_pos(t, p);
    &&& 0 <= p < t.len()
    &&& p < n < e && t[n] == ':'
    &&& n + 1 < f && lit_at(t, f, e, "flags="@)
    &&& first_mtu(t, f + 6, e) is Some
}

pub open spec fn header_name(t: Seq<char>, p: int) -> Seq<char> {
    t.subrange(p, name_end(t, p))
}

/// The digits of the header's MTU.
pub open spec fn mtu_digits(t: Seq<char>, p: int) -> (int, int) {
    let e = line_end(t, p);
    let q = first_mtu(t, flags_pos(t, p) + 6, e)->0;
    let w = run_end(t, q + 3, e, CharClass::Space);
    (w, run_end(t, w, e, CharClass::Digit))
}

/// The MTU a header declares: absent when it is zero or does not fit in a `u32`.
pub open spec fn header_mtu(t: Seq<char>, p: int) -> Option<u32> {
    let v = decimal_value(t.subrange(mtu_digits(t, p).0, mtu_digits(t, p).1));
    if first_mtu(t, flags_pos(t, p) + 6, line_end(t, p)) is Some && 0 < v <= u32::MAX {
        Some(v as u32)
    } else {
        None
    }
}

/// The starts of the header lines at or after the line start `p`, in order.
pub open spec fn headers_from(t: Seq<char>, p: int) -> Seq<int>
    decreases t.len() - p via headers_from_decreases
{
    if p < 0 || p >= t.len() {
        Seq::empty()
    } else {
        let e = line_end(t, p);
        let rest = if e < t.len() {
            headers_from(t, e + 1)
        } else {
            Seq::empty()
        };
        if header_at(t, p) {
            seq![p] + rest
        } else {
            rest
        }
    }
}

#[via_fn]
proof fn headers_from_decreases(t: Seq<char>, p: int) {
    if 0 <= p < t.len() {
        lemma_run_end(t, p, t.len() as int, CharClass::NotNewline);
    }
}

/// The starts of all header lines of a dump.
pub open spec fn header_starts(t: Seq<char>) -> Seq<int> {
    headers_from(t, 0)
}

/// Where the block of the `i`-th header ends: at the next header, or at the end of the text.
pub open spec fn block_end(t: Seq<char>, i: int) -> int {
    let hs = header_starts(t);
    if i + 1 < hs.len() {
        hs[i + 1]
    } else {
        t.len() as int
    }
}

fn first_mtu_exec(t: &Vec<char>, q: usize, e: usize) -> (r: Option<usize>)
    requires
        e <= t@.len(),
    ensures
        r is Some <==> first_mtu(t@, q as int, e as int) is Some,
        r matches Some(x) ==> first_mtu(t@, q as int, e as int) == Some(x as int),
        r matches Some(x) ==> mtu_at(t@, x as int, e as int) && x + 3 <= e,
{
    proof {
        reveal_strlit("mtu");
        assert("mtu"@.len() == 3);
    }
    let mut i = q;
    while i < e
        invariant
            q <= i,
            e <= t@.len(),
            "mtu"@.len() == 3,
            first_mtu(t@, q as int, e as int) == first_mtu(t@, i as int, e as int),
        decreases e - i,
    {
        if has_lit(t, i, e, "mtu") {
            let w = skip_run(t, i + 3, e, CharClass::Space);
            if i + 3 < w && w < e && class_has(t[w], CharClass::Digit) {
                return Some(i);
            }
        }
        i = i + 1;
    }
    None
}

/// The name end and the MTU of the header line at `p`, if it is one.
fn header_exec(t: &Vec<char>, p: usize, e: usize) -> (r: Option<(usize, Option<u32>)>)
    requires
        p < t@.len(),
        e == line_end(t@, p as int),
    ensures
        r is Some <==> header_at(t@, p as int),
        r matches Some(h) ==> h.0 == name_end(t@, p as int) && h.1 == header_mtu(t@, p as int),
{
    proof {
        lemma_run_end(t@, p as int, t@.len() as int, CharClass::NotNewline);
        reveal_strlit("flags=");
        assert("flags="@.len() == 6);
    }
    let n = skip_run(t, p, e, CharClass::IfaceName);
    if n == p || n >= e || t[n] != ':' {
        return None;
    }
    let f = skip_run(t, n + 1, e, CharClass::Space);
    if f == n + 1 || !has_lit(t, f, e, "flags=") {
        return None;
    }
    let q = match first_mtu_exec(t, f + 6, e) {
        Some(q) => q,
        None => {
            return None;
        },
    };
    let w = skip_run(t, q + 3, e, CharClass::Space);
    let d = skip_run(t, w, e, CharClass::Digit);
    proof {
        lemma_run_end(t@, w as int, e as int, CharClass::Digit);
        assert(all_digits(t@.subrange(w as int, d as int)));
    }
    let mtu = match parse_digits(t, w, d, 0xffff_ffff) {
        Some(v) => if v > 0 {
            Some(v as u32)
        } else {
            None
        },
        None => None,
    };
    Some((n, mtu))
}


/// The address lines of a block.
#[derive(Clone, Copy, PartialEq, Eq, Debug)]
pub enum AddrKind {
    /// `inet a.b.c.d`
    V4,
    /// `inet6 hex:colon`
    V6,
    /// `ether` followed by seventeen hex digits and colons
    Ether,
}

pub open spec fn keyword(k: AddrKind) -> Seq<char> {
    match k {
        AddrKind::V4 => "inet"@,
        AddrKind::V6 => "inet6"@,
        AddrKind::Ether => "ether"@,
    }
}

/// End of a dotted quad of decimal numbers that starts at `x`.
pub open spec fn ipv4_end(t: Seq<char>, x: int, e: int) -> Option<int> {
    let d1 = run_end(t, x, e, CharClass::Digit);
    let d2 = run_end(t, d1 + 1, e, CharClass::Digit);
    let d3 = run_end(t, d2 + 1, e, CharClass::Digit);
    let d4 = run_end(t, d3 + 1, e, CharClass::Digit);
    if x < d1 < e && t[d1] == '.' && d1 + 1 < d2 < e && t[d2] == '.' && d2 + 1 < d3 < e && t[d3]
        == '.' && d3 + 1 < d4 {
        Some(d4)
    } else {
        None
    }
}

pub open spec fn addr_end(t: Seq<char>, x: int, e: int, k: AddrKind) -> Option<int> {
    match k {
        AddrKind::V4 => ipv4_end(t, x, e),
        AddrKind::V6 => if run_end(t, x, e, CharClass::HexColon) > x {
            Some(run_end(t, x, e, CharClass::HexColon))
        } else {
            None
        },
        AddrKind::Ether => if x + 17 <= e && run_end(t, x, x + 17, CharClass::HexColon) == x + 17 {
            Some(x + 17)
        } else {
            None
        },
    }
}

/// The address that the line `[q, e)` gives: indentation, the keyword, white space, then
/// the address.
pub open spec fn addr_on_line(t: Seq<char>, q: int, e: int, k: AddrKind) -> Option<(int, int)> {
    let w = run_end(t, q, e, CharClass::Space);
    let x = run_end(t, w + keyword(k).len(), e, CharClass::Space);
    if q < w && lit_at(t, w, e, keyword(k)) && w + keyword(k).len() < x && addr_end(
        t,
        x,
        e,
        k,
    ) is Some {
        Some((x, addr_end(t, x, e, k)->0))
    } else {
        None
    }
}

/// The addresses of kind `k` on the lines of `[q, b)`, in order.
pub open spec fn addrs_from(t: Seq<char>, q: int, b: int, k: AddrKind) -> Seq<Seq<char>>
    decreases b - q via addrs_from_decreases
{
    if q < 0 || q >= b || b > t.len() {
        Seq::empty()
    } else {
        let e = run_end(t, q, b, CharClass::NotNewline);
        let here = match addr_on_line(t, q, e, k) {
            Some(r) => seq![t.subrange(r.0, r.1)],
            None => Seq::empty(),
        };
        here + if e < b {
            addrs_from(t, e + 1, b, k)
        } else {
            Seq::empty()
        }
    }
}

#[via_fn]
proof fn addrs_from_decreases(t: Seq<char>, q: int, b: int, k: AddrKind) {
    if 0 <= q < b <= t.len() {
        lemma_run_end(t, q, b, CharClass::NotNewline);
    }
}

/// `status:`, white space, `active`, ignoring ASCII case, somewhere in `[a, b)`.
pub open spec fn status_active(t: Seq<char>, a: int, b: int) -> bool {
    exists|p: int|
        a <= p && lit_at_ci(t, p, b, "status:"@) && #[trigger] lit_at_ci(
            t,
            run_end(t, p + 7, b, CharClass::Space),
            b,
            "active"@,
        )
}

/// `flags=`, digits, `<`, a list, `>` at `p`.
pub open spec fn flag_list_at(t: Seq<char>, p: int, b: int) -> bool {
    let d = run_end(t, p + 6, b, CharClass::Digit);
    let g = run_end(t, d + 1, b, CharClass::NotGreater);
    lit_at(t, p, b, "flags="@) && p + 6 < d < b && t[d] == '<' && d + 1 < g < b
}

pub open spec fn first_flag_list(t: Seq<char>, p: int, b: int) -> Option<int>
    decreases b - p,
{
    if p < 0 || p >= b {
        None
    } else if flag_list_at(t, p, b) {
        Some(p)
    } else {
        first_flag_list(t, p + 1, b)
    }
}

/// The bounds of the list of the first flag list in `[a, b)`.
pub open spec fn flag_list(t: Seq<char>, a: int, b: int) -> Option<(int, int)> {
    match first_flag_list(t, a, b) {
        Some(p) => {
            let d = run_end(t, p + 6, b, CharClass::Digit);
            Some((d + 1, run_end(t, d + 1, b, CharClass::NotGreater)))
        },
        None => None,
    }
}

/// One of the comma-separated items of `[c, g)` is `lit` (lower case), ignoring ASCII case.
pub open spec fn flag_listed(t: Seq<char>, c: int, g: int, lit: Seq<char>) -> bool {
    exists|s: int|
        c <= s && (s == c || t[s - 1] == ',') && #[trigger] lit_at_ci(t, s, g, lit) && (s
            + lit.len() == g || t[s + lit.len()] == ',')
}

/// The interface is up: an active status, or `UP` or `RUNNING` in its first flag list.
pub open spec fn block_up(t: Seq<char>, a: int, b: int) -> bool {
    status_active(t, a, b) || match flag_list(t, a, b) {
        Some(l) => flag_listed(t, l.0, l.1, "up"@) || flag_listed(t, l.0, l.1, "running"@),
        None => false,
    }
}

/// `loopback`, ignoring ASCII case, somewhere in `[a, b)`.
pub open spec fn mentions_loopback(t: Seq<char>, a: int, b: int) -> bool {
    exists|p: int| a <= p && #[trigger] lit_at_ci(t, p, b, "loopback"@)
}

/// An interface as plain values.
pub struct InterfaceView {
    pub name: Seq<char>,
    pub mac: Option<Seq<char>>,
    pub ips: Seq<Seq<char>>,
    pub is_up: bool,
    pub is_loopback: bool,
    pub mtu: Option<u32>,
}

/// One interface of the dump. `ips` holds the IPv4 addresses, then the IPv6 ones, each in
/// the order of the lines; `mac` is in lower case.
pub struct InterfaceInfo {
    pub name: String,
    pub mac: Option<String>,
    pub ips: Vec<String>,
    pub is_up: bool,
    pub is_loopback: bool,
    pub mtu: Option<u32>,
}

impl View for InterfaceInfo {
    type V = InterfaceView;

    open spec fn view(&self) -> InterfaceView {
        InterfaceView {
            name: self.name@,
            mac: opt_text(self.mac),
            ips: texts_view(self.ips@),
            is_up: self.is_up,
            is_loopback: self.is_loopback,
            mtu: self.mtu,
        }
    }
}

/// The interface that the block `[a, b)`, headed at `a`, describes.
pub open spec fn block_model(t: Seq<char>, a: int, b: int) -> InterfaceView {
    let macs = addrs_from(t, a, b, AddrKind::Ether);
    InterfaceView {
        name: header_name(t, a),
        mac: if macs.len() > 0 {
            Some(ascii_lower_seq(macs[0]))
        } else {
            None
        },
        ips: addrs_from(t, a, b, AddrKind::V4) + addrs_from(t, a, b, AddrKind::V6),
        is_up: block_up(t, a, b),
        is_loopback: lit_at(t, a, name_end(t, a), "lo"@) || mentions_loopback(t, a, b),
        mtu: header_mtu(t, a),
    }
}


fn keyword_str(k: AddrKind) -> (r: &'static str)
    ensures
        r@ == keyword(k),
{
    match k {
        AddrKind::V4 => "inet",
        AddrKind::V6 => "inet6",
        AddrKind::Ether => "ether",
    }
}

/// End of the dotted quad at `x`, before `e`.
pub fn ipv4_end_exec(t: &Vec<char>, x: usize, e: usize) -> (r: Option<usize>)
    requires
        x <= e <= t@.len(),
    ensures
        r is Some <==> ipv4_end(t@, x as int, e as int) is Some,
        r matches Some(z) ==> ipv4_end(t@, x as int, e as int) == Some(z as int) && z <= e,
{
    let d1 = skip_run(t, x, e, CharClass::Digit);
    if !(x < d1 && d1 < e && t[d1] == '.') {
        return None;
    }
    let d2 = skip_run(t, d1 + 1, e, CharClass::Digit);
    if !(d1 + 1 < d2 && d2 < e && t[d2] == '.') {
        return None;
    }
    let d3 = skip_run(t, d2 + 1, e, CharClass::Digit);
    if !(d2 + 1 < d3 && d3 < e && t[d3] == '.') {
        return None;
    }
    let d4 = skip_run(t, d3 + 1, e, CharClass::Digit);
    if d3 + 1 < d4 {
        Some(d4)
    } else {
        None
    }
}

fn addr_on_line_exec(t: &Vec<char>, q: usize, e: usize, k: AddrKind) -> (r: Option<(usize, usize)>)
    requires
        q <= e <= t@.len(),
    ensures
        r is Some <==> addr_on_line(t@, q as int, e as int, k) is Some,
        r matches Some(p) ==> addr_on_line(t@, q as int, e as int, k) == Some((p.0 as int, p.1 as int))
            && p.0 <= p.1 <= e,
{
    let kw = keyword_str(k);
    let kl = kw.unicode_len();
    let w = skip_run(t, q, e, CharClass::Space);
    if !(q < w && has_lit(t, w, e, kw)) {
        return None;
    }
    let x = skip_run(t, w + kl, e, CharClass::Space);
    if !(w + kl < x) {
        return None;
    }
    let z = match k {
        AddrKind::V4 => ipv4_end_exec(t, x, e),
        AddrKind::V6 => {
            let z = skip_run(t, x, e, CharClass::HexColon);
            if z > x {
                Some(z)
            } else {
                None
            }
        },
        AddrKind::Ether => {
            if x <= e && 17 <= e - x && skip_run(t, x, x + 17, CharClass::HexColon) == x + 17 {
                Some(x + 17)
            } else {
                None
            }
        },
    };
    match z {
        Some(z) => Some((x, z)),
        None => None,
    }
}

/// The addresses of kind `k` in the block `[a, b)`.
fn addrs_in(t: &Vec<char>, a: usize, b: usize, k: AddrKind) -> (r: Vec<String>)
    requires
        a <= b <= t@.len(),
    ensures
        texts_view(r@) == addrs_from(t@, a as int, b as int, k),
{
    let mut out: Vec<String> = Vec::new();
    let mut q = a;
    while q < b
        invariant
            a <= q <= b <= t@.len(),
            addrs_from(t@, a as int, b as int, k) == texts_view(out@) + addrs_from(
                t@,
                q as int,
                b as int,
                k,
            ),
        decreases b - q,
    {
        let e = skip_run(t, q, b, CharClass::NotNewline);
        let ghost before = out@;
        match addr_on_line_exec(t, q, e, k) {
            Some((x, z)) => {
                let s = string_of(t, x, z);
                out.push(s);
                assert(texts_view(out@) =~= texts_view(before).push(t@.subrange(x as int, z as int)));
            },
            None => {
                assert(texts_view(out@) =~= texts_view(before));
            },
        }
        proof {
            let rest = if e < b {
                addrs_from(t@, e + 1, b as int, k)
            } else {
                Seq::empty()
            };
            if e >= b {
                assert(addrs_from(t@, b as int, b as int, k) =~= Seq::<Seq<char>>::empty());
            }
            assert(texts_view(before) + addrs_from(t@, q as int, b as int, k) =~= texts_view(out@) + rest);
        }
        q = if e < b {
            e + 1
        } else {
            b
        };
    }
    assert(texts_view(out@) + Seq::<Seq<char>>::empty() =~= texts_view(out@));
    out
}

fn status_active_exec(t: &Vec<char>, a: usize, b: usize) -> (r: bool)
    requires
        a <= b <= t@.len(),
    ensures
        r == status_active(t@, a as int, b as int),
{
    proof {
        reveal_strlit("status:");
        assert("status:"@.len() == 7);
    }
    let mut p = a;
    while p < b
        invariant
            a <= p <= b <= t@.len(),
            "status:"@.len() == 7,
            forall|x: int|
                a <= x < p ==> !(lit_at_ci(t@, x, b as int, "status:"@) && #[trigger] lit_at_ci(
                    t@,
                    run_end(t@, x + 7, b as int, CharClass::Space),
                    b as int,
                    "active"@,
                )),
        decreases b - p,
    {
        if has_lit_ci(t, p, b, "status:") {
            let w = skip_run(t, p + 7, b, CharClass::Space);
            if has_lit_ci(t, w, b, "active") {
                return true;
            }
        }
        p = p + 1;
    }
    false
}

fn flag_list_exec(t: &Vec<char>, a: usize, b: usize) -> (r: Option<(usize, usize)>)
    requires
        a <= b <= t@.len(),
    ensures
        r is Some <==> flag_list(t@, a as int, b as int) is Some,
        r matches Some(l) ==> flag_list(t@, a as int, b as int) == Some((l.0 as int, l.1 as int))
            && l.0 <= l.1 <= b,
{
    proof {
        reveal_strlit("flags=");
        assert("flags="@.len() == 6);
    }
    let mut p = a;
    while p < b
        invariant
            a <= p <= b <= t@.len(),
            "flags="@.len() == 6,
            first_flag_list(t@, a as int, b as int) == first_flag_list(t@, p as int, b as int),
        decreases b - p,
    {
        if has_lit(t, p, b, "flags=") {
            let d = skip_run(t, p + 6, b, CharClass::Digit);
            if p + 6 < d && d < b && t[d] == '<' {
                let g = skip_run(t, d + 1, b, CharClass::NotGreater);
                if d + 1 < g && g < b {
                    return Some((d + 1, g));
                }
            }
        }
        p = p + 1;
    }
    None
}

fn flag_listed_exec(t: &Vec<char>, c: usize, g: usize, lit: &str) -> (r: bool)
    requires
        c <= g <= t@.len(),
    ensures
        r == flag_listed(t@, c as int, g as int, lit@),
{
    let n = lit.unicode_len();
    let mut s = c;
    while s < g
        invariant
            c <= s <= g <= t@.len(),
            n == lit@.len(),
            forall|x: int|
                c <= x < s ==> !((x == c || t@[x - 1] == ',') && #[trigger] lit_at_ci(
                    t@,
                    x,
                    g as int,
                    lit@,
                ) && (x + lit@.len() == g || t@[x + lit@.len()] == ',')),
        decreases g - s,
    {
        if (s == c || t[s - 1] == ',') && has_lit_ci(t, s, g, lit) {
            if s + n == g || t[s + n] == ',' {
                return true;
            }
        }
        s = s + 1;
    }
    if (g == c || t[g - 1] == ',') && has_lit_ci(t, g, g, lit) && n == 0 {
        return true;
    }
    proof {
        assert forall|x: int|
            c <= x implies !((x == c || t@[x - 1] == ',') && #[trigger] lit_at_ci(
                t@,
                x,
                g as int,
                lit@,
            ) && (x + lit@.len() == g || t@[x + lit@.len()] == ',')) by {
            if x >= g && lit_at_ci(t@, x, g as int, lit@) {
                assert(x == g && n == 0);
            }
        }
    }
    false
}

fn mentions_loopback_exec(t: &Vec<char>, a: usize, b: usize) -> (r: bool)
    requires
        a <= b <= t@.len(),
    ensures
        r == mentions_loopback(t@, a as int, b as int),
{
    let mut p = a;
    while p < b
        invariant
            a <= p <= b <= t@.len(),
            forall|x: int| a <= x < p ==> !#[trigger] lit_at_ci(t@, x, b as int, "loopback"@),
        decreases b - p,
    {
        if has_lit_ci(t, p, b, "loopback") {
            return true;
        }
        p = p + 1;
    }
    has_lit_ci(t, b, b, "loopback")
}

/// The ASCII lower case of a text.
fn lowercase(s: &String) -> (r: String)
    ensures
        r@ == ascii_lower_seq(s@),
{
    let t = crate::text::chars_of(s.as_str());
    let mut r = String::new();
    let mut i: usize = 0;
    while i < t.len()
        invariant
            i <= t@.len(),
            t@ == s@,
            r@ == ascii_lower_seq(t@.subrange(0, i as int)),
        decreases t@.len() - i,
    {
        push_char(&mut r, lower_char(t[i]));
        assert(ascii_lower_seq(t@.subrange(0, i + 1)) =~= ascii_lower_seq(t@.subrange(0, i as int)).push(ascii_lower(t@[i as int])));
        i = i + 1;
    }
    assert(t@.subrange(0, i as int) =~= t@);
    r
}

/// The name end and the MTU of the line that starts a block, read as a header.
fn header_fields(t: &Vec<char>) -> (r: (usize, Option<u32>))
    ensures
        r.0 == name_end(t@, 0),
        r.0 <= t@.len(),
        r.1 == header_mtu(t@, 0),
{
    let n = t.len();
    let e = skip_run(t, 0, n, CharClass::NotNewline);
    let ne = skip_run(t, 0, e, CharClass::IfaceName);
    proof {
        lemma_run_end(t@, 0, n as int, CharClass::NotNewline);
        lemma_run_end(t@, 0, e as int, CharClass::IfaceName);
    }
    if ne >= e {
        return (ne, None);
    }
    let f = skip_run(t, ne + 1, e, CharClass::Space);
    if f > e || e - f < 6 {
        proof {
            assert(first_mtu(t@, f + 6, e as int) is None);
        }
        return (ne, None);
    }
    match first_mtu_exec(t, f + 6, e) {
        Some(q) => {
            proof {
                reveal_strlit("mtu");
            }
            let w = skip_run(t, q + 3, e, CharClass::Space);
            let d = skip_run(t, w, e, CharClass::Digit);
            proof {
                lemma_run_end(t@, w as int, e as int, CharClass::Digit);
                assert(all_digits(t@.subrange(w as int, d as int)));
            }
            let mtu = match parse_digits(t, w, d, 0xffff_ffff) {
                Some(v) => if v > 0 {
                    Some(v as u32)
                } else {
                    None
                },
                None => None,
            };
            (ne, mtu)
        },
        None => (ne, None),
    }
}

/// The interface that a block's text describes.
fn block_of_text(blk: &Vec<char>) -> (r: InterfaceInfo)
    ensures
        r@ == block_text_model(blk@),
{
    let (ne, mtu) = header_fields(blk);
    block_record(blk, 0, blk.len(), ne, mtu)
}

/// The interface of the block `[a, b)`, whose header is at `a`.
fn block_record(t: &Vec<char>, a: usize, b: usize, n: usize, mtu: Option<u32>) -> (r: InterfaceInfo)
    requires
        a <= n <= t@.len(),
        a <= b <= t@.len(),
        n == name_end(t@, a as int),
        mtu == header_mtu(t@, a as int),
    ensures
        r@ == block_model(t@, a as int, b as int),
{
    let macs = addrs_in(t, a, b, AddrKind::Ether);
    let mac = if macs.len() > 0 {
        Some(lowercase(&macs[0]))
    } else {
        None
    };
    let mut ips = addrs_in(t, a, b, AddrKind::V4);
    let mut v6 = addrs_in(t, a, b, AddrKind::V6);
    let ghost v4_view = ips@;
    ips.append(&mut v6);
    assert(texts_view(ips@) =~= texts_view(v4_view) + addrs_from(t@, a as int, b as int, AddrKind::V6));
    let up = status_active_exec(t, a, b) || match flag_list_exec(t, a, b) {
        Some((c, g)) => flag_listed_exec(t, c, g, "up") || flag_listed_exec(t, c, g, "running"),
        None => false,
    };
    let lo = has_lit(t, a, n, "lo") || mentions_loopback_exec(t, a, b);
    let r = InterfaceInfo { name: string_of(t, a, n), mac, ips, is_up: up, is_loopback: lo, mtu };
    proof {
        if macs@.len() > 0 {
            assert(texts_view(macs@)[0] == macs@[0]@);
        }
    }
    r
}


/// The interfaces of a dump, one per header, in the order of the headers.
pub open spec fn interfaces_model(t: Seq<char>) -> Seq<InterfaceView> {
    let hs = header_starts(t);
    Seq::new(hs.len(), |i: int| block_text_model(t.subrange(hs[i], block_end(t, i))))
}

/// The interface that the text of one block describes; it reads nothing outside the block.
pub open spec fn block_text_model(blk: Seq<char>) -> InterfaceView {
    block_model(blk, 0, blk.len() as int)
}

pub open spec fn sorted_by_name(v: Seq<InterfaceInfo>) -> bool {
    forall|i: int, j: int| 0 <= i < j < v.len() ==> text_le(v[i].name@, v[j].name@)
}

pub open spec fn interfaces_view(v: Seq<InterfaceInfo>) -> Seq<InterfaceView> {
    v.map_values(|x: InterfaceInfo| x@)
}

/// The header lines of a dump: start, end of name, MTU.
fn header_lines(t: &Vec<char>) -> (r: Vec<(usize, usize, Option<u32>)>)
    ensures
        r@.len() == header_starts(t@).len(),
        forall|i: int|
            0 <= i < r@.len() ==> {
                &&& (#[trigger] r@[i]).0 == header_starts(t@)[i]
                &&& r@[i].0 < t@.len()
                &&& r@[i].1 == name_end(t@, r@[i].0 as int)
                &&& r@[i].0 <= r@[i].1 <= t@.len()
                &&& r@[i].2 == header_mtu(t@, r@[i].0 as int)
            },
        forall|i: int, j: int| 0 <= i < j < r@.len() ==> r@[i].0 < r@[j].0,
{
    let n = t.len();
    let mut r: Vec<(usize, usize, Option<u32>)> = Vec::new();
    let mut p: usize = 0;
    while p < n
        invariant
            n == t@.len(),
            p <= n,
            header_starts(t@) == r@.map_values(|h: (usize, usize, Option<u32>)| h.0 as int)
                + headers_from(t@, p as int),
            forall|i: int|
                0 <= i < r@.len() ==> {
                    &&& (#[trigger] r@[i]).0 < p
                    &&& r@[i].1 == name_end(t@, r@[i].0 as int)
                    &&& r@[i].0 <= r@[i].1 <= t@.len()
                    &&& r@[i].2 == header_mtu(t@, r@[i].0 as int)
                },
            forall|i: int, j: int| 0 <= i < j < r@.len() ==> r@[i].0 < r@[j].0,
        decreases n - p,
    {
        let e = skip_run(t, p, n, CharClass::NotNewline);
        let ghost before = r@;
        proof {
            lemma_run_end(t@, p as int, n as int, CharClass::NotNewline);
            lemma_run_end(t@, p as int, e as int, CharClass::IfaceName);
        }
        match header_exec(t, p, e) {
            Some((ne, mtu)) => {
                r.push((p, ne, mtu));
            },
            None => {},
        }
        proof {
            let f = |h: (usize, usize, Option<u32>)| h.0 as int;
            let rest = if e < n {
                headers_from(t@, e + 1)
            } else {
                Seq::empty()
            };
            if e >= n {
                assert(headers_from(t@, n as int) =~= Seq::<int>::empty());
            }
            if header_at(t@, p as int) {
                assert(r@.map_values(f) =~= before.map_values(f).push(p as int));
                assert(before.map_values(f) + headers_from(t@, p as int) =~= r@.map_values(f) + rest);
            } else {
                assert(r@.map_values(f) =~= before.map_values(f));
            }
        }
        p = if e < n {
            e + 1
        } else {
            n
        };
    }
    proof {
        let f = |h: (usize, usize, Option<u32>)| h.0 as int;
        assert(r@.map_values(f) + Seq::<int>::empty() =~= r@.map_values(f));
        assert forall|i: int| 0 <= i < r@.len() implies (#[trigger] r@[i]).0 == header_starts(t@)[i] by {
            assert(r@.map_values(f)[i] == r@[i].0 as int);
        }
    }
    r
}

/// Puts `x` after every interface whose name is not after its own.
fn insert_by_name(out: &mut Vec<InterfaceInfo>, x: InterfaceInfo)
    requires
        sorted_by_name(old(out)@),
    ensures
        sorted_by_name(final(out)@),
        interfaces_view(final(out)@).to_multiset() == interfaces_view(old(out)@).to_multiset().insert(
            x@,
        ),
        final(out)@.len() == old(out)@.len() + 1,
{
    let mut j: usize = 0;
    while j < out.len() && text_le_exec(out[j].name.as_str(), x.name.as_str())
        invariant
            j <= out@.len(),
            sorted_by_name(out@),
            forall|k: int| 0 <= k < j ==> text_le((#[trigger] out@[k]).name@, x.name@),
        decreases out@.len() - j,
    {
        j = j + 1;
    }
    let ghost old_seq = out@;
    let ghost xv = x@;
    let ghost xn = x.name@;
    proof {
        if j < old_seq.len() {
            lemma_text_le_total(old_seq[j as int].name@, xn);
        }
    }
    out.insert(j, x);
    proof {
        let ns = out@;
        assert(ns =~= old_seq.insert(j as int, ns[j as int]));
        assert forall|a: int, b: int| 0 <= a < b < ns.len() implies text_le(ns[a].name@, ns[b].name@) by {
            if b < j {
            } else if a < j && b == j {
            } else if a < j {
                assert(ns[b] == old_seq[b - 1]);
            } else if a == j {
                assert(ns[b] == old_seq[b - 1]);
                if b - 1 > j {
                    lemma_text_le_trans(xn, old_seq[j as int].name@, old_seq[b - 1].name@);
                }
            } else {
                assert(ns[a] == old_seq[a - 1]);
                assert(ns[b] == old_seq[b - 1]);
            }
        }
        assert(interfaces_view(ns) =~= interfaces_view(old_seq).insert(j as int, xv));
        to_multiset_insert(interfaces_view(old_seq), j as int, xv);
    }
}

/// One interface per header line, each read from the lines between its header and the
/// next header (or the end of the text), sorted by name.
pub open spec fn interfaces_agree(r: Seq<InterfaceInfo>, t: Seq<char>) -> bool {
    &&& r.len() == header_starts(t).len()
    &&& sorted_by_name(r)
    &&& interfaces_view(r).to_multiset() == interfaces_model(t).to_multiset()
}

/// The interfaces of a dump.
pub fn parse_interfaces(text: &str) -> (r: Vec<InterfaceInfo>)
    ensures
        interfaces_agree(r@, text@),
{
    let t = chars_of(text);
    let hs = header_lines(&t);
    let ghost model = interfaces_model(t@);
    let mut out: Vec<InterfaceInfo> = Vec::new();
    let mut i: usize = 0;
    assert(model.take(0) =~= Seq::<InterfaceView>::empty());
    assert(interfaces_view(out@) =~= Seq::<InterfaceView>::empty());
    while i < hs.len()
        invariant
            i <= hs@.len(),
            hs@.len() == header_starts(t@).len(),
            model == interfaces_model(t@),
            forall|k: int|
                0 <= k < hs@.len() ==> {
                    &&& (#[trigger] hs@[k]).0 == header_starts(t@)[k]
                    &&& hs@[k].0 < t@.len()
                    &&& hs@[k].1 == name_end(t@, hs@[k].0 as int)
                    &&& hs@[k].0 <= hs@[k].1 <= t@.len()
                    &&& hs@[k].2 == header_mtu(t@, hs@[k].0 as int)
                },
            forall|a: int, b: int| 0 <= a < b < hs@.len() ==> hs@[a].0 < hs@[b].0,
            sorted_by_name(out@),
            out@.len() == i,
            interfaces_view(out@).to_multiset() == model.take(i as int).to_multiset(),
        decreases hs@.len() - i,
    {
        let (a, ne, mtu) = hs[i];
        let b = if i + 1 < hs.len() {
            hs[i + 1].0
        } else {
            t.len()
        };
        let blk = crate::text::copy_range(&t, a, b);
        let rec = block_of_text(&blk);
        assert(rec@ == model[i as int]);
        insert_by_name(&mut out, rec);
        proof {
            assert(model.take(i + 1) =~= model.take(i as int).push(model[i as int]));
            model.take(i as int).to_multiset_ensures();
        }
        i = i + 1;
    }
    assert(model.take(i as int) =~= model);
    out
}

pub open spec fn sorted_views(v: Seq<InterfaceView>) -> bool {
    forall|i: int, j: int| 0 <= i < j < v.len() ==> text_le(v[i].name, v[j].name)
}

pub open spec fn names_distinct(v: Seq<InterfaceView>) -> bool {
    forall|i: int, j: int| 0 <= i < j < v.len() ==> v[i].name != v[j].name
}

/// Two lists sorted by name, holding the same records, with no name twice, are the same
/// list.
pub proof fn lemma_sorted_unique(v1: Seq<InterfaceView>, v2: Seq<InterfaceView>)
    requires
        sorted_views(v1),
        sorted_views(v2),
        v1.to_multiset() == v2.to_multiset(),
        names_distinct(v1),
    ensures
        v1 == v2,
    decreases v1.len(),
{
    v1.to_multiset_ensures();
    v2.to_multiset_ensures();
    if v1.len() == 0 {
        assert(v2.len() == 0);
        assert(v1 =~= v2);
    } else {
        let x = v1[0];
        let y = v2[0];
        assert(v2.to_multiset().count(y) > 0) by {
            assert(v2.contains(y));
        }
        assert(v1.contains(y));
        let j = choose|j: int| 0 <= j < v1.len() && v1[j] == y;
        assert(v1.contains(x));
        assert(v1.to_multiset().count(x) > 0);
        assert(v2.to_multiset().count(x) > 0);
        assert(v2.contains(x));
        let k = choose|k: int| 0 <= k < v2.len() && v2[k] == x;
        lemma_text_le_refl(x.name);
        lemma_text_le_refl(y.name);
        if j > 0 {
            assert(text_le(v1[0].name, v1[j].name));
        }
        if k > 0 {
            assert(text_le(v2[0].name, v2[k].name));
        }
        lemma_text_le_antisym(x.name, y.name);
        if j > 0 {
            assert(v1[0].name != v1[j].name);
        }
        assert(x == y);
        assert(v1.remove(0) =~= v1.drop_first());
        assert(v2.remove(0) =~= v2.drop_first());
        let w1 = v1.drop_first();
        let w2 = v2.drop_first();
        assert(w1.to_multiset() == w2.to_multiset());
        assert(sorted_views(w1)) by {
            assert forall|i: int, j2: int| 0 <= i < j2 < w1.len() implies text_le(
                w1[i].name,
                w1[j2].name,
            ) by {
                assert(w1[i] == v1[i + 1] && w1[j2] == v1[j2 + 1]);
            }
        }
        assert(sorted_views(w2)) by {
            assert forall|i: int, j2: int| 0 <= i < j2 < w2.len() implies text_le(
                w2[i].name,
                w2[j2].name,
            ) by {
                assert(w2[i] == v2[i + 1] && w2[j2] == v2[j2 + 1]);
            }
        }
        assert(names_distinct(w1)) by {
            assert forall|i: int, j2: int| 0 <= i < j2 < w1.len() implies w1[i].name
                != w1[j2].name by {
                assert(w1[i] == v1[i + 1] && w1[j2] == v1[j2 + 1]);
            }
        }
        lemma_sorted_unique(w1, w2);
        assert(v1 =~= seq![x] + w1);
        assert(v2 =~= seq![y] + w2);
    }
}

/// The order of the blocks in a dump does not matter: two dumps whose blocks describe the
/// same interfaces (each record being read from its own block's text alone), with no name
/// twice, give the same list.
pub proof fn lemma_block_order(
    t1: Seq<char>,
    t2: Seq<char>,
    r1: Seq<InterfaceInfo>,
    r2: Seq<InterfaceInfo>,
)
    requires
        interfaces_agree(r1, t1),
        interfaces_agree(r2, t2),
        interfaces_model(t1).to_multiset() == interfaces_model(t2).to_multiset(),
        names_distinct(interfaces_view(r1)),
    ensures
        interfaces_view(r1) == interfaces_view(r2),
{
    let v1 = interfaces_view(r1);
    let v2 = interfaces_view(r2);
    assert(sorted_views(v1)) by {
        assert forall|i: int, j: int| 0 <= i < j < v1.len() implies text_le(v1[i].name, v1[j].name) by {
            assert(v1[i].name == r1[i].name@ && v1[j].name == r1[j].name@);
        }
    }
    assert(sorted_views(v2)) by {
        assert forall|i: int, j: int| 0 <= i < j < v2.len() implies text_le(v2[i].name, v2[j].name) by {
            assert(v2[i].name == r2[i].name@ && v2[j].name == r2[j].name@);
        }
    }
    lemma_sorted_unique(v1, v2);
}

} // verus!

//! The network snapshot: default gateway, DNS servers, the Wi-Fi network,
//! and the assembly with the interface list, the connectivity flag and the
//! optional public address.

use crate::interfaces::{interfaces_agree, ipv4_end, ipv4_end_exec, parse_interfaces, InterfaceInfo};
use crate::json::{get_str, json_document_of, parse_document, str_member, Json};
use crate::order::{lemma_text_le_antisym, lemma_text_le_refl, lemma_text_le_total, lemma_text_le_trans, text_le, text_le_exec};
use crate::resolve::{first_present, resolve_first};
use crate::text::{
    chars_of, has_lit, has_lit_ci, lemma_run_end, line_end, lit_at, lit_at_ci, opt_text,
    run_end, skip_run, string_of, strip, strip_range, CharClass,
};
use crate::tool::RawOutput;
use vstd::prelude::*;

verus! {

/// `gateway:`, optional white space, then a dotted quad, at `p`.
pub open spec fn gateway_at(t: Seq<char>, p: int) -> Option<(int, int)> {
    let x = run_end(t, p + 8, t.len() as int, CharClass::Space);
    if lit_at(t, p, t.len() as int, "gateway:"@) && ipv4_end(t, x, t.len() as int) is Some {
        Some((x, ipv4_end(t, x, t.len() as int)->0))
    } else {
        None
    }
}

pub open spec fn first_gateway(t: Seq<char>, p: int) -> Option<(int, int)>
    decreases t.len() - p,
{
    if p < 0 || p >= t.len() {
        None
    } else if gateway_at(t, p) is Some {
        gateway_at(t, p)
    } else {
        first_gateway(t, p + 1)
    }
}

/// The address of the first `gateway:` line of a routing-table query.
pub open spec fn gateway_of(t: Seq<char>) -> Option<Seq<char>> {
    match first_gateway(t, 0) {
        Some(r) => Some(t.subrange(r.0, r.1)),
        None => None,
    }
}

/// The default gateway in a routing-table query.
pub fn parse_gateway(text: &str) -> (r: Option<String>)
    ensures
        crate::text::opt_text(r) == gateway_of(text@),
{
    proof {
        reveal_strlit("gateway:");
        assert("gateway:"@.len() == 8);
    }
    let t = chars_of(text);
    let n = t.len();
    let mut p: usize = 0;
    while p < n
        invariant
            n == t@.len(),
            t@ == text@,
            p <= n,
            "gateway:"@.len() == 8,
            first_gateway(t@, 0) == first_gateway(t@, p as int),
        decreases n - p,
    {
        if has_lit(&t, p, n, "gateway:") {
            let x = skip_run(&t, p + 8, n, CharClass::Space);
            if let Some(z) = ipv4_end_exec(&t, x, n) {
                proof {
                    lemma_run_end(t@, p + 8, n as int, CharClass::Space);
                }
                return Some(string_of(&t, x, z));
            }
        }
        p = p + 1;
    }
    None
}

/// `nameserver[N]`, optional white space, `:`, optional white space, then a dotted quad,
/// at `p`.
pub open spec fn nameserver_at(t: Seq<char>, p: int) -> Option<(int, int)> {
    let n = t.len() as int;
    let d = run_end(t, p + 11, n, CharClass::Digit);
    let w = run_end(t, d + 1, n, CharClass::Space);
    let x = run_end(t, w + 1, n, CharClass::Space);
    if lit_at(t, p, n, "nameserver["@) && p + 11 < d < n && t[d] == ']' && w < n && t[w] == ':'
        && ipv4_end(t, x, n) is Some {
        Some((x, ipv4_end(t, x, n)->0))
    } else {
        None
    }
}

/// The addresses of the `nameserver[N] : a.b.c.d` entries at or after `p`, in order.
pub open spec fn nameservers_from(t: Seq<char>, p: int) -> Seq<Seq<char>>
    decreases t.len() - p,
{
    if p < 0 || p >= t.len() {
        Seq::empty()
    } else {
        let rest = nameservers_from(t, p + 1);
        match nameserver_at(t, p) {
            Some(r) => seq![t.subrange(r.0, r.1)] + rest,
            None => rest,
        }
    }
}

/// Strictly increasing, hence free of duplicates.
pub open spec fn strictly_sorted(v: Seq<Seq<char>>) -> bool {
    forall|i: int, j: int|
        #![trigger v[i], v[j]]
        0 <= i < j < v.len() ==> text_le(v[i], v[j]) && v[i] != v[j]
}

proof fn lemma_insert_strict(ov: Seq<Seq<char>>, j: int, x: Seq<char>)
    requires
        strictly_sorted(ov),
        0 <= j <= ov.len(),
        forall|k: int| 0 <= k < j ==> text_le(#[trigger] ov[k], x),
        j < ov.len() ==> text_le(x, ov[j]) && x != ov[j],
        j > 0 ==> ov[j - 1] != x,
    ensures
        strictly_sorted(ov.insert(j, x)),
{
    assert forall|a: int, b: int| 0 <= a < b < ov.insert(j, x).len() implies text_le(
        ov.insert(j, x)[a],
        ov.insert(j, x)[b],
    ) && ov.insert(j, x)[a] != ov.insert(j, x)[b] by {
        lemma_insert_strict_pair(ov, j, x, a, b);
    }
}

proof fn lemma_insert_strict_pair(ov: Seq<Seq<char>>, j: int, x: Seq<char>, a: int, b: int)
    requires
        strictly_sorted(ov),
        0 <= j <= ov.len(),
        forall|k: int| 0 <= k < j ==> text_le(#[trigger] ov[k], x),
        j < ov.len() ==> text_le(x, ov[j]) && x != ov[j],
        j > 0 ==> ov[j - 1] != x,
        0 <= a < b < ov.len() + 1,
    ensures
        text_le(ov.insert(j, x)[a], ov.insert(j, x)[b]),
        ov.insert(j, x)[a] != ov.insert(j, x)[b],
{
    let ns = ov.insert(j, x);
    if b < j {
        assert(ns[a] == ov[a] && ns[b] == ov[b]);
        assert(text_le(ov[a], ov[b]) && ov[a] != ov[b]);
    } else if a < j && b == j {
        assert(ns[a] == ov[a] && ns[b] == x);
        if ov[a] == x && a < j - 1 {
            assert(text_le(ov[a], ov[j - 1]));
            lemma_text_le_antisym(ov[j - 1], x);
        }
    } else if a < j {
        assert(ns[a] == ov[a] && ns[b] == ov[b - 1]);
        assert(text_le(ov[a], ov[b - 1]) && ov[a] != ov[b - 1]);
    } else if a == j {
        assert(ns[a] == x && ns[b] == ov[b - 1]);
        if b - 1 > j {
            assert(text_le(ov[j], ov[b - 1]) && ov[j] != ov[b - 1]);
            lemma_text_le_trans(x, ov[j], ov[b - 1]);
            if x == ov[b - 1] {
                lemma_text_le_antisym(ov[j], ov[b - 1]);
            }
        }
    } else {
        assert(ns[a] == ov[a - 1]);
        assert(ns[b] == ov[b - 1]);
        assert(text_le(ov[a - 1], ov[b - 1]) && ov[a - 1] != ov[b - 1]);
    }
}

/// Inserts `x` into a strictly sorted list unless it is there already.
fn insert_unique(out: &mut Vec<String>, x: String)
    requires
        strictly_sorted(crate::text::texts_view(old(out)@)),
    ensures
        strictly_sorted(crate::text::texts_view(final(out)@)),
        crate::text::texts_view(final(out)@).to_set() == crate::text::texts_view(old(out)@).to_set().insert(
            x@,
        ),
{
    let ghost ov = crate::text::texts_view(out@);
    let mut j: usize = 0;
    while j < out.len() && text_le_exec(out[j].as_str(), x.as_str())
        invariant
            j <= out@.len(),
            ov == crate::text::texts_view(out@),
            strictly_sorted(ov),
            forall|k: int| 0 <= k < j ==> text_le(#[trigger] ov[k], x@),
        decreases out@.len() - j,
    {
        j = j + 1;
    }
    if j > 0 && out[j - 1] == x {
        assert(ov.to_set() =~= ov.to_set().insert(x@)) by {
            assert(ov[j - 1] == x@);
        }
        return;
    }
    proof {
        if j < ov.len() {
            lemma_text_le_total(ov[j as int], x@);
            lemma_text_le_refl(x@);
        }
        if j > 0 {
            assert(ov[j - 1] != x@);
        }
    }
    out.insert(j, x);
    proof {
        let ns = crate::text::texts_view(out@);
        assert(ns =~= ov.insert(j as int, x@));
        lemma_insert_strict(ov, j as int, x@);
        assert(ns.to_set() =~= ov.to_set().insert(x@)) by {
            assert forall|y: Seq<char>| ns.to_set().contains(y) <==> ov.to_set().insert(x@).contains(
                y,
            ) by {
                if ns.to_set().contains(y) {
                    let i = choose|i: int| 0 <= i < ns.len() && ns[i] == y;
                    if i < j {
                        assert(ov[i] == y);
                    } else if i > j {
                        assert(ov[i - 1] == y);
                    }
                }
                if ov.to_set().contains(y) {
                    let i = choose|i: int| 0 <= i < ov.len() && ov[i] == y;
                    if i < j {
                        assert(ns[i] == y);
                    } else {
                        assert(ns[i + 1] == y);
                    }
                }
                if y == x@ {
                    assert(ns[j as int] == y);
                }
            }
        }
    }
}

/// The DNS servers of a resolver-configuration dump: every address that a
/// `nameserver[N] : a.b.c.d` entry names, sorted, each once.
pub fn parse_dns_servers(text: &str) -> (r: Vec<String>)
    ensures
        strictly_sorted(crate::text::texts_view(r@)),
        crate::text::texts_view(r@).to_set() == nameservers_from(text@, 0).to_set(),
{
    proof {
        reveal_strlit("nameserver[");
        assert("nameserver["@.len() == 11);
    }
    let t = chars_of(text);
    let n = t.len();
    let mut out: Vec<String> = Vec::new();
    let mut p: usize = 0;
    assert(crate::text::texts_view(out@).to_set() =~= Set::<Seq<char>>::empty());
    while p < n
        invariant
            n == t@.len(),
            t@ == text@,
            p <= n,
            "nameserver["@.len() == 11,
            strictly_sorted(crate::text::texts_view(out@)),
            nameservers_from(t@, 0).to_set() == crate::text::texts_view(out@).to_set().union(
                nameservers_from(t@, p as int).to_set(),
            ),
        decreases n - p,
    {
        let ghost before = crate::text::texts_view(out@).to_set();
        let mut found: Option<(usize, usize)> = None;
        if has_lit(&t, p, n, "nameserver[") {
            let d = skip_run(&t, p + 11, n, CharClass::Digit);
            if p + 11 < d && d < n && t[d] == ']' {
                let w = skip_run(&t, d + 1, n, CharClass::Space);
                if w < n && t[w] == ':' {
                    let x = skip_run(&t, w + 1, n, CharClass::Space);
                    if let Some(z) = ipv4_end_exec(&t, x, n) {
                        proof {
                            lemma_run_end(t@, w + 1, n as int, CharClass::Space);
                        }
                        found = Some((x, z));
                    }
                }
            }
        }
        proof {
            let rest = nameservers_from(t@, p + 1);
            match nameserver_at(t@, p as int) {
                Some(r) => {
                    assert(nameservers_from(t@, p as int) == seq![t@.subrange(r.0, r.1)] + rest);
                    assert((seq![t@.subrange(r.0, r.1)] + rest).to_set() =~= rest.to_set().insert(
                        t@.subrange(r.0, r.1),
                    )) by {
                        assert forall|y: Seq<char>| (seq![t@.subrange(r.0, r.1)] + rest).to_set().contains(y) <==> rest.to_set().insert(t@.subrange(r.0, r.1)).contains(y) by {
                            let s2 = seq![t@.subrange(r.0, r.1)] + rest;
                            if s2.to_set().contains(y) {
                                let i = choose|i: int| 0 <= i < s2.len() && s2[i] == y;
                                if i > 0 {
                                    assert(rest[i - 1] == y);
                                }
                            }
                            if rest.to_set().contains(y) {
                                let i = choose|i: int| 0 <= i < rest.len() && rest[i] == y;
                                assert(s2[i + 1] == y);
                            }
                            if y == t@.subrange(r.0, r.1) {
                                assert(s2[0] == y);
                            }
                        }
                    }
                },
                None => {},
            }
        }
        match found {
            Some((x, z)) => {
                let s = string_of(&t, x, z);
                insert_unique(&mut out, s);
            },
            None => {},
        }
        proof {
            let now = crate::text::texts_view(out@).to_set();
            let rest = nameservers_from(t@, p + 1).to_set();
            match nameserver_at(t@, p as int) {
                Some(r) => {
                    assert(now.union(rest) =~= before.union(rest.insert(t@.subrange(r.0, r.1))));
                },
                None => {
                    assert(now.union(rest) =~= before.union(nameservers_from(t@, p as int).to_set()));
                },
            }
        }
        p = p + 1;
    }
    assert(nameservers_from(t@, n as int).to_set() =~= Set::<Seq<char>>::empty());
    assert(crate::text::texts_view(out@).to_set().union(Set::<Seq<char>>::empty()) =~= crate::text::texts_view(out@).to_set());
    out
}


/// The labelled values that the Wi-Fi search reads.
#[derive(Clone, Copy, PartialEq, Eq, Debug)]
pub enum Label {
    /// `primary interface: name`, any ASCII case.
    PrimaryInterface,
    /// `PrimaryInterface : name`, any ASCII case.
    PrimaryInterfaceKey,
    /// `Current Wi-Fi Network: name` (or `WiFi`), any ASCII case; the rest of the line.
    CurrentNetwork,
}

/// The value of label `k` when the label stands at `p`.
pub open spec fn label_at(t: Seq<char>, p: int, k: Label) -> Option<(int, int)> {
    let n = t.len() as int;
    match k {
        Label::PrimaryInterface => {
            let x = run_end(t, p + 18, n, CharClass::Space);
            let m = run_end(t, x, n, CharClass::IfaceName);
            if lit_at_ci(t, p, n, "primary interface:"@) && x < m {
                Some((x, m))
            } else {
                None
            }
        },
        Label::PrimaryInterfaceKey => {
            let w = run_end(t, p + 16, n, CharClass::Space);
            let x = run_end(t, w + 1, n, CharClass::Space);
            let m = run_end(t, x, n, CharClass::IfaceName);
            if lit_at_ci(t, p, n, "primaryinterface"@) && w < n && t[w] == ':' && x < m {
                Some((x, m))
            } else {
                None
            }
        },
        Label::CurrentNetwork => {
            let q = if p + 10 < n && t[p + 10] == '-' {
                p + 11
            } else {
                p + 10
            };
            let w = run_end(t, q + 11, n, CharClass::Space);
            if lit_at_ci(t, p, n, "current wi"@) && lit_at_ci(t, q, n, "fi network:"@) && w < n {
                Some((w, line_end(t, w)))
            } else {
                None
            }
        },
    }
}

pub open spec fn first_label(t: Seq<char>, p: int, k: Label) -> Option<(int, int)>
    decreases t.len() - p,
{
    if p < 0 || p >= t.len() {
        None
    } else if label_at(t, p, k) is Some {
        label_at(t, p, k)
    } else {
        first_label(t, p + 1, k)
    }
}

pub open spec fn label_value(t: Seq<char>, k: Label) -> Option<Seq<char>> {
    match first_label(t, 0, k) {
        Some(r) => Some(t.subrange(r.0, r.1)),
        None => None,
    }
}

/// The primary interface of a network-information summary: the `primary interface:` form,
/// else the `PrimaryInterface :` form.
pub open spec fn primary_of(t: Seq<char>) -> Option<Seq<char>> {
    if label_value(t, Label::PrimaryInterface) is Some {
        label_value(t, Label::PrimaryInterface)
    } else {
        label_value(t, Label::PrimaryInterfaceKey)
    }
}

/// The network name of an association query, trimmed; absent when blank.
pub open spec fn network_name_of(t: Seq<char>) -> Option<Seq<char>> {
    match label_value(t, Label::CurrentNetwork) {
        Some(v) => if strip(v, CharClass::Space).len() > 0 {
            Some(strip(v, CharClass::Space))
        } else {
            None
        },
        None => None,
    }
}

fn label_bounds(t: &Vec<char>, k: Label) -> (r: Option<(usize, usize)>)
    ensures
        r is Some <==> first_label(t@, 0, k) is Some,
        r matches Some(b) ==> first_label(t@, 0, k) == Some((b.0 as int, b.1 as int)) && b.0 <= b.1
            <= t@.len(),
{
    proof {
        reveal_strlit("primary interface:");
        reveal_strlit("primaryinterface");
        reveal_strlit("current wi");
        reveal_strlit("fi network:");
        assert("primary interface:"@.len() == 18);
        assert("primaryinterface"@.len() == 16);
        assert("current wi"@.len() == 10);
        assert("fi network:"@.len() == 11);
    }
    let n = t.len();
    let mut p: usize = 0;
    while p < n
        invariant
            n == t@.len(),
            p <= n,
            "primary interface:"@.len() == 18,
            "primaryinterface"@.len() == 16,
            "current wi"@.len() == 10,
            "fi network:"@.len() == 11,
            first_label(t@, 0, k) == first_label(t@, p as int, k),
        decreases n - p,
    {
        let found: Option<(usize, usize)> = match k {
            Label::PrimaryInterface => {
                if has_lit_ci(t, p, n, "primary interface:") {
                    let x = skip_run(t, p + 18, n, CharClass::Space);
                    let m = skip_run(t, x, n, CharClass::IfaceName);
                    if x < m {
                        Some((x, m))
                    } else {
                        None
                    }
                } else {
                    None
                }
            },
            Label::PrimaryInterfaceKey => {
                if has_lit_ci(t, p, n, "primaryinterface") {
                    let w = skip_run(t, p + 16, n, CharClass::Space);
                    if w < n && t[w] == ':' {
                        let x = skip_run(t, w + 1, n, CharClass::Space);
                        let m = skip_run(t, x, n, CharClass::IfaceName);
                        if x < m {
                            Some((x, m))
                        } else {
                            None
                        }
                    } else {
                        None
                    }
                } else {
                    None
                }
            },
            Label::CurrentNetwork => {
                if has_lit_ci(t, p, n, "current wi") {
                    let q = if p + 10 < n && t[p + 10] == '-' {
                        p + 11
                    } else {
                        p + 10
                    };
                    if has_lit_ci(t, q, n, "fi network:") {
                        let w = skip_run(t, q + 11, n, CharClass::Space);
                        if w < n {
                            let e = skip_run(t, w, n, CharClass::NotNewline);
                            Some((w, e))
                        } else {
                            None
                        }
                    } else {
                        None
                    }
                } else {
                    None
                }
            },
        };
        if found.is_some() {
            return found;
        }
        p = p + 1;
    }
    None
}

fn label_text(t: &Vec<char>, k: Label) -> (r: Option<String>)
    ensures
        opt_text(r) == label_value(t@, k),
{
    match label_bounds(t, k) {
        Some((a, b)) => Some(string_of(t, a, b)),
        None => None,
    }
}

/// The primary interface named by a network-information summary.
pub fn primary_interface(text: &str) -> (r: Option<String>)
    ensures
        opt_text(r) == primary_of(text@),
{
    let t = chars_of(text);
    let a = label_text(&t, Label::PrimaryInterface);
    let b = label_text(&t, Label::PrimaryInterfaceKey);
    let ghost (ga, gb) = (a, b);
    let mut c: Vec<Option<String>> = Vec::new();
    c.push(a);
    c.push(b);
    let r = resolve_first(c);
    proof {
        let s = seq![ga, gb];
        assert(c@ =~= s);
        assert(s.drop_first() =~= seq![gb]);
        assert(seq![gb].drop_first() =~= Seq::<Option<String>>::empty());
        lemma_label_nonempty(t@, 0, Label::PrimaryInterface);
        lemma_label_nonempty(t@, 0, Label::PrimaryInterfaceKey);
        assert(first_present(seq![gb]) == (if gb is Some && gb->0@.len() > 0 {
            gb
        } else {
            first_present(Seq::<Option<String>>::empty())
        }));
        assert(first_present(s) == (if ga is Some && ga->0@.len() > 0 {
            ga
        } else {
            first_present(seq![gb])
        }));
    }
    r
}

/// Interface names are never empty.
proof fn lemma_label_nonempty(t: Seq<char>, p: int, k: Label)
    requires
        k != Label::CurrentNetwork,
    ensures
        first_label(t, p, k) matches Some(r) ==> 0 <= r.0 < r.1 <= t.len(),
    decreases t.len() - p,
{
    reveal_strlit("primary interface:");
    reveal_strlit("primaryinterface");
    let n = t.len() as int;
    if 0 <= p < t.len() {
        if label_at(t, p, k) is None {
            lemma_label_nonempty(t, p + 1, k);
        } else if k == Label::PrimaryInterface {
            lemma_run_end(t, p + 18, n, CharClass::Space);
            lemma_run_end(t, run_end(t, p + 18, n, CharClass::Space), n, CharClass::IfaceName);
        } else {
            let w = run_end(t, p + 16, n, CharClass::Space);
            lemma_run_end(t, p + 16, n, CharClass::Space);
            lemma_run_end(t, w + 1, n, CharClass::Space);
            lemma_run_end(t, run_end(t, w + 1, n, CharClass::Space), n, CharClass::IfaceName);
        }
    }
}

/// The network name that an association query reports.
pub fn network_name(text: &str) -> (r: Option<String>)
    ensures
        opt_text(r) == network_name_of(text@),
{
    let t = chars_of(text);
    match label_bounds(&t, Label::CurrentNetwork) {
        Some((a, b)) => {
            let (x, y) = strip_range(&t, a, b, CharClass::Space);
            if x < y {
                Some(string_of(&t, x, y))
            } else {
                None
            }
        },
        None => None,
    }
}


/// A line starting at `p` with a wireless interface name: `en`, digits, `:`.
pub open spec fn candidate_at(t: Seq<char>, p: int) -> Option<int> {
    let d = run_end(t, p + 2, t.len() as int, CharClass::Digit);
    if lit_at(t, p, t.len() as int, "en"@) && p + 2 < d < t.len() && t[d] == ':' {
        Some(d)
    } else {
        None
    }
}

/// The wireless interface names that head the lines at or after the line start `p`.
pub open spec fn candidates_from(t: Seq<char>, p: int) -> Seq<Seq<char>>
    decreases t.len() - p via candidates_from_decreases
{
    if p < 0 || p >= t.len() {
        Seq::empty()
    } else {
        let e = line_end(t, p);
        let rest = if e < t.len() {
            candidates_from(t, e + 1)
        } else {
            Seq::empty()
        };
        match candidate_at(t, p) {
            Some(d) => seq![t.subrange(p, d)] + rest,
            None => rest,
        }
    }
}

#[via_fn]
proof fn candidates_from_decreases(t: Seq<char>, p: int) {
    if 0 <= p < t.len() {
        lemma_run_end(t, p, t.len() as int, CharClass::NotNewline);
    }
}

/// The wireless interface names of an interface dump, in order.
pub fn wireless_candidates(text: &str) -> (r: Vec<String>)
    ensures
        crate::text::texts_view(r@) == candidates_from(text@, 0),
{
    proof {
        reveal_strlit("en");
        assert("en"@.len() == 2);
    }
    let t = chars_of(text);
    let n = t.len();
    let mut out: Vec<String> = Vec::new();
    let mut p: usize = 0;
    while p < n
        invariant
            n == t@.len(),
            t@ == text@,
            p <= n,
            "en"@.len() == 2,
            candidates_from(t@, 0) == crate::text::texts_view(out@) + candidates_from(t@, p as int),
        decreases n - p,
    {
        let e = skip_run(&t, p, n, CharClass::NotNewline);
        let ghost before = crate::text::texts_view(out@);
        if has_lit(&t, p, n, "en") {
            let d = skip_run(&t, p + 2, n, CharClass::Digit);
            if p + 2 < d && d < n && t[d] == ':' {
                out.push(string_of(&t, p, d));
                assert(crate::text::texts_view(out@) =~= before.push(t@.subrange(p as int, d as int)));
            }
        }
        proof {
            let rest = if e < n {
                candidates_from(t@, e + 1)
            } else {
                Seq::empty()
            };
            if e >= n {
                assert(candidates_from(t@, n as int) =~= Seq::<Seq<char>>::empty());
            }
            if candidate_at(t@, p as int) is None {
                assert(crate::text::texts_view(out@) =~= before);
            }
            assert(before + candidates_from(t@, p as int) =~= crate::text::texts_view(out@) + rest);
        }
        p = if e < n {
            e + 1
        } else {
            n
        };
    }
    assert(crate::text::texts_view(out@) + Seq::<Seq<char>>::empty() =~= crate::text::texts_view(out@));
    out
}

/// The Wi-Fi network. The association query used cannot report the BSSID, the signal or
/// the frequency: those fields are part of the record and stay absent.
pub struct WifiInfo {
    pub ssid: Option<String>,
    pub bssid: Option<String>,
    pub signal_dbm: Option<i32>,
    pub frequency_mhz: Option<u32>,
    pub iface: Option<String>,
}

pub struct WifiView {
    pub ssid: Option<Seq<char>>,
    pub bssid: Option<Seq<char>>,
    pub signal_dbm: Option<i32>,
    pub frequency_mhz: Option<u32>,
    pub iface: Option<Seq<char>>,
}

impl View for WifiInfo {
    type V = WifiView;

    open spec fn view(&self) -> WifiView {
        WifiView {
            ssid: opt_text(self.ssid),
            bssid: opt_text(self.bssid),
            signal_dbm: self.signal_dbm,
            frequency_mhz: self.frequency_mhz,
            iface: opt_text(self.iface),
        }
    }
}

pub open spec fn wifi_view_of(ssid: Option<Seq<char>>, iface: Option<Seq<char>>) -> WifiView {
    WifiView { ssid, bssid: None, signal_dbm: None, frequency_mhz: None, iface }
}

pub open spec fn opt_wifi(w: Option<WifiInfo>) -> Option<WifiView> {
    match w {
        Some(x) => Some(x@),
        None => None,
    }
}

fn wifi_info(ssid: Option<String>, iface: Option<String>) -> (r: WifiInfo)
    ensures
        r@ == wifi_view_of(opt_text(ssid), opt_text(iface)),
{
    WifiInfo { ssid, bssid: None, signal_dbm: None, frequency_mhz: None, iface }
}

/// Where the search for the Wi-Fi network stands.
pub enum WifiSearch {
    /// Nothing run yet; the network-information summary comes first.
    Start,
    /// The association query for the primary interface is due.
    Primary { name: String },
    /// The interface dump is due, to find wireless candidates.
    Listing { iface: Option<String> },
    /// The association query for `candidates[next]` is due.
    Probing { iface: Option<String>, candidates: Vec<String>, next: usize },
    /// The search is over.
    Finished { wifi: Option<WifiInfo> },
}

pub enum SearchView {
    Start,
    Primary(Seq<char>),
    Listing(Option<Seq<char>>),
    Probing(Option<Seq<char>>, Seq<Seq<char>>, nat),
    Finished(Option<WifiView>),
}

impl View for WifiSearch {
    type V = SearchView;

    open spec fn view(&self) -> SearchView {
        match self {
            WifiSearch::Start => SearchView::Start,
            WifiSearch::Primary { name } => SearchView::Primary(name@),
            WifiSearch::Listing { iface } => SearchView::Listing(opt_text(*iface)),
            WifiSearch::Probing { iface, candidates, next } => SearchView::Probing(
                opt_text(*iface),
                crate::text::texts_view(candidates@),
                *next as nat,
            ),
            WifiSearch::Finished { wifi } => SearchView::Finished(opt_wifi(*wifi)),
        }
    }
}

/// The command the search needs run next.
pub enum WifiAction {
    /// The network-information summary.
    ReadNetworkInfo,
    /// The association query for an interface.
    QueryNetwork(String),
    /// The interface dump.
    ListInterfaces,
    /// Nothing: the search is over.
    Done,
}

/// The next state of the search, given the output of the command it asked for. A summary
/// that cannot be run or fails, or an association query for the primary interface that
/// cannot be run, ends the search with no Wi-Fi record; otherwise the first associated
/// network wins, and with none the record names the primary interface and no network.
pub open spec fn next_search(s: SearchView, launched: bool, success: bool, out: Seq<char>) -> SearchView {
    match s {
        SearchView::Start => if !(launched && success) {
            SearchView::Finished(None)
        } else {
            match primary_of(out) {
                Some(i) => SearchView::Primary(i),
                None => SearchView::Listing(None),
            }
        },
        SearchView::Primary(i) => if !launched {
            SearchView::Finished(None)
        } else if success && network_name_of(out) is Some {
            SearchView::Finished(Some(wifi_view_of(network_name_of(out), Some(i))))
        } else {
            SearchView::Listing(Some(i))
        },
        SearchView::Listing(i) => if launched && success && candidates_from(out, 0).len() > 0 {
            SearchView::Probing(i, candidates_from(out, 0), 0)
        } else {
            SearchView::Finished(Some(wifi_view_of(None, i)))
        },
        SearchView::Probing(i, c, k) => if k < c.len() && launched && success && network_name_of(
            out,
        ) is Some {
            SearchView::Finished(Some(wifi_view_of(network_name_of(out), Some(c[k as int]))))
        } else if k + 1 < c.len() {
            SearchView::Probing(i, c, k + 1)
        } else {
            SearchView::Finished(Some(wifi_view_of(None, i)))
        },
        SearchView::Finished(w) => SearchView::Finished(w),
    }
}

impl WifiSearch {
    pub fn start() -> (r: WifiSearch)
        ensures
            r@ == SearchView::Start,
    {
        WifiSearch::Start
    }

    /// The command to run next.
    pub fn action(&self) -> (r: WifiAction)
        ensures
            match self@ {
                SearchView::Start => r is ReadNetworkInfo,
                SearchView::Primary(i) => r matches WifiAction::QueryNetwork(q) && q@ == i,
                SearchView::Listing(_) => r is ListInterfaces,
                SearchView::Probing(_, c, k) => if k < c.len() {
                    r matches WifiAction::QueryNetwork(q) && q@ == c[k as int]
                } else {
                    r is Done
                },
                SearchView::Finished(_) => r is Done,
            },
    {
        match self {
            WifiSearch::Start => WifiAction::ReadNetworkInfo,
            WifiSearch::Primary { name } => WifiAction::QueryNetwork(name.clone()),
            WifiSearch::Listing { .. } => WifiAction::ListInterfaces,
            WifiSearch::Probing { candidates, next, .. } => {
                if *next < candidates.len() {
                    WifiAction::QueryNetwork(candidates[*next].clone())
                } else {
                    WifiAction::Done
                }
            },
            WifiSearch::Finished { .. } => WifiAction::Done,
        }
    }

    /// Takes in the output of the command that `action` asked for.
    pub fn step(self, out: &RawOutput) -> (r: WifiSearch)
        ensures
            r@ == next_search(self@, out.launched, out.success, out.stdout@),
    {
        match self {
            WifiSearch::Start => {
                if !out.ok() {
                    return WifiSearch::Finished { wifi: None };
                }
                match primary_interface(out.stdout.as_str()) {
                    Some(i) => WifiSearch::Primary { name: i },
                    None => WifiSearch::Listing { iface: None },
                }
            },
            WifiSearch::Primary { name: iface } => {
                if !out.launched {
                    return WifiSearch::Finished { wifi: None };
                }
                if out.success {
                    if let Some(name) = network_name(out.stdout.as_str()) {
                        return WifiSearch::Finished { wifi: Some(wifi_info(Some(name), Some(iface))) };
                    }
                }
                WifiSearch::Listing { iface: Some(iface) }
            },
            WifiSearch::Listing { iface } => {
                if out.ok() {
                    let candidates = wireless_candidates(out.stdout.as_str());
                    if candidates.len() > 0 {
                        return WifiSearch::Probing { iface, candidates, next: 0 };
                    }
                }
                WifiSearch::Finished { wifi: Some(wifi_info(None, iface)) }
            },
            WifiSearch::Probing { iface, candidates, next } => {
                if next < candidates.len() && out.ok() {
                    if let Some(name) = network_name(out.stdout.as_str()) {
                        let c = candidates[next].clone();
                        return WifiSearch::Finished { wifi: Some(wifi_info(Some(name), Some(c))) };
                    }
                }
                if next < candidates.len() && next + 1 < candidates.len() {
                    WifiSearch::Probing { iface, candidates, next: next + 1 }
                } else {
                    WifiSearch::Finished { wifi: Some(wifi_info(None, iface)) }
                }
            },
            WifiSearch::Finished { wifi } => WifiSearch::Finished { wifi },
        }
    }

    /// The Wi-Fi record, once the search is over.
    pub fn result(self) -> (r: Option<WifiInfo>)
        ensures
            self@ matches SearchView::Finished(w) ==> opt_wifi(r) == w,
            self@ matches SearchView::Probing(i, c, k) ==> (k >= c.len() ==> opt_wifi(r) == Some(
                wifi_view_of(None, i),
            )),
            self@ matches SearchView::Probing(_, c, k) ==> (k < c.len() ==> r is None),
            self@ is Start || self@ is Primary || self@ is Listing ==> r is None,
    {
        match self {
            WifiSearch::Finished { wifi } => wifi,
            WifiSearch::Probing { iface, candidates, next } => if next < candidates.len() {
                None
            } else {
                Some(wifi_info(None, iface))
            },
            _ => None,
        }
    }
}


#[derive(Clone, Copy, PartialEq, Eq, Structural, Debug)]
pub enum NetworkError {
    /// The interface dump could not be run or failed.
    InterfaceDumpFailed,
}

/// The interfaces, from one run of the interface-dump tool; the only step whose failure
/// fails the network snapshot.
pub fn interfaces_from_output(out: &RawOutput) -> (r: Result<Vec<InterfaceInfo>, NetworkError>)
    ensures
        !(out.launched && out.success) ==> r == Err::<Vec<InterfaceInfo>, NetworkError>(
            NetworkError::InterfaceDumpFailed,
        ),
        out.launched && out.success ==> (r matches Ok(v) && interfaces_agree(v@, out.stdout@)),
{
    if !out.ok() {
        return Err(NetworkError::InterfaceDumpFailed);
    }
    Ok(parse_interfaces(out.stdout.as_str()))
}

/// The default gateway, from one run of the routing-table query; absent if it failed.
pub fn gateway_from_output(out: &RawOutput) -> (r: Option<String>)
    ensures
        opt_text(r) == if out.launched && out.success {
            gateway_of(out.stdout@)
        } else {
            None
        },
{
    if !out.ok() {
        return None;
    }
    parse_gateway(out.stdout.as_str())
}

/// The DNS servers, from one run of the resolver-configuration dump; none if it failed.
pub fn dns_from_output(out: &RawOutput) -> (r: Vec<String>)
    ensures
        strictly_sorted(crate::text::texts_view(r@)),
        crate::text::texts_view(r@).to_set() == if out.launched && out.success {
            nameservers_from(out.stdout@, 0).to_set()
        } else {
            Set::empty()
        },
{
    if !out.ok() {
        let v: Vec<String> = Vec::new();
        assert(crate::text::texts_view(v@).to_set() =~= Set::<Seq<char>>::empty());
        return v;
    }
    parse_dns_servers(out.stdout.as_str())
}

/// The address of an IP-echo reply document: its `ip` member, if that is a string.
pub fn ip_from_document(doc: &Json) -> (r: Option<String>)
    ensures
        r == str_member(*doc, "ip"@),
{
    get_str(doc, "ip")
}

/// The address of an IP-echo reply body; absent if the body is not JSON.
pub fn public_ip_from_reply(body: &str) -> (r: Option<String>)
    ensures
        r == match json_document_of(body@) {
            Some(doc) => str_member(doc, "ip"@),
            None => None,
        },
{
    match parse_document(body) {
        Ok(doc) => ip_from_document(&doc),
        Err(_) => None,
    }
}

/// The public address is looked up only when it was asked for and the host is online.
pub open spec fn public_ip_wanted(include_public_ip: Option<bool>, online: bool) -> bool {
    include_public_ip == Some(true) && online
}

pub fn wants_public_ip(include_public_ip: Option<bool>, online: bool) -> (r: bool)
    ensures
        r == public_ip_wanted(include_public_ip, online),
{
    match include_public_ip {
        Some(b) => b && online,
        None => false,
    }
}

/// The network snapshot.
pub struct MacNetworkStatus {
    pub interfaces: Vec<InterfaceInfo>,
    pub online: bool,
    pub default_gateway: Option<String>,
    pub dns_servers: Vec<String>,
    pub wifi: Option<WifiInfo>,
    pub public_ip: Option<String>,
}

/// The public address that a snapshot reports, given what the lookup gave.
pub open spec fn reported_public_ip(
    include_public_ip: Option<bool>,
    online: bool,
    looked_up: Option<String>,
) -> Option<String> {
    if public_ip_wanted(include_public_ip, online) {
        looked_up
    } else {
        None
    }
}

/// Puts the snapshot together. `looked_up` is what the public-address lookup gave, if it
/// was made; it is dropped unless the address was asked for and the host is online.
pub fn network_status(
    interfaces: Vec<InterfaceInfo>,
    wifi: Option<WifiInfo>,
    default_gateway: Option<String>,
    dns_servers: Vec<String>,
    online: bool,
    include_public_ip: Option<bool>,
    looked_up: Option<String>,
) -> (r: MacNetworkStatus)
    ensures
        r.interfaces == interfaces,
        r.wifi == wifi,
        r.default_gateway == default_gateway,
        r.dns_servers == dns_servers,
        r.online == online,
        r.public_ip == reported_public_ip(include_public_ip, online, looked_up),
{
    let public_ip = if wants_public_ip(include_public_ip, online) {
        looked_up
    } else {
        None
    };
    MacNetworkStatus { interfaces, online, default_gateway, dns_servers, wifi, public_ip }
}

/// An offline host reports no public address, whether or not one was asked for and
/// whatever the lookup gave.
pub proof fn lemma_offline_reports_no_public_ip(
    include_public_ip: Option<bool>,
    looked_up: Option<String>,
)
    ensures
        !public_ip_wanted(include_public_ip, false),
        reported_public_ip(include_public_ip, false, looked_up) is None,
{
}

} // verus!

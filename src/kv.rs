//! Scanners for the `"Key" = Value` lines that the platform's device registry
//! and power-source registry print.

use crate::text::{
    chars_of, class_has, is_ws, lemma_run_end, line_end, run_end, skip_run, string_of, strip,
    strip_range, CharClass,
};
use vstd::prelude::*;

verus! {

/// A line entry `"Key" = value` starts at `q` in a line ending at `e`: a quoted key of
/// letters, digits and `_`, white space, `=`, then white space and at least one more
/// character before the end of the line.
pub open spec fn entry_at(t: Seq<char>, q: int, e: int) -> bool {
    let k = run_end(t, q + 1, e, CharClass::KeyName);
    let w = run_end(t, k + 1, e, CharClass::Space);
    &&& 0 <= q && q + 1 <= e && e <= t.len() && t[q] == '"'
    &&& q + 1 < k < e && t[k] == '"'
    &&& k + 1 < w && w + 3 <= e && t[w] == '='
    &&& is_ws(t[w + 1])
}

/// The first position at or after `q` where an entry starts, before `e`.
pub open spec fn first_entry(t: Seq<char>, q: int, e: int) -> Option<int>
    decreases e - q,
{
    if q >= e {
        None
    } else if entry_at(t, q, e) {
        Some(q)
    } else {
        first_entry(t, q + 1, e)
    }
}

/// The key and the trimmed value of the entry at `q`.
pub open spec fn entry_parts(t: Seq<char>, q: int, e: int) -> (Seq<char>, Seq<char>) {
    let k = run_end(t, q + 1, e, CharClass::KeyName);
    let w = run_end(t, k + 1, e, CharClass::Space);
    (t.subrange(q + 1, k), strip(t.subrange(w + 1, e), CharClass::Space))
}

/// The entries of the lines that start at or after the line start `p`: at most one per
/// line, the leftmost.
pub open spec fn entries_from(t: Seq<char>, p: int) -> Seq<(Seq<char>, Seq<char>)>
    decreases t.len() - p via entries_from_decreases
{
    if p < 0 || p >= t.len() {
        Seq::empty()
    } else {
        let e = line_end(t, p);
        let rest = if e < t.len() {
            entries_from(t, e + 1)
        } else {
            Seq::empty()
        };
        match first_entry(t, p, e) {
            Some(q) => seq![entry_parts(t, q, e)] + rest,
            None => rest,
        }
    }
}

#[via_fn]
proof fn entries_from_decreases(t: Seq<char>, p: int) {
    if 0 <= p < t.len() {
        lemma_run_end(t, p, t.len() as int, CharClass::NotNewline);
        assert(line_end(t, p) + 1 > p);
    }
}

/// Every `"Key" = value` entry of a power-source registry dump, one per line at most,
/// in the order of the lines; values are trimmed.
pub open spec fn registry_entries(t: Seq<char>) -> Seq<(Seq<char>, Seq<char>)> {
    entries_from(t, 0)
}

pub open spec fn entries_view(v: Seq<(String, String)>) -> Seq<(Seq<char>, Seq<char>)> {
    v.map_values(|x: (String, String)| (x.0@, x.1@))
}

fn is_entry_at(t: &Vec<char>, q: usize, e: usize) -> (r: bool)
    requires
        q < e <= t@.len(),
    ensures
        r == entry_at(t@, q as int, e as int),
{
    if t[q] != '"' {
        return false;
    }
    let k = skip_run(t, q + 1, e, CharClass::KeyName);
    if k == q + 1 || k >= e || t[k] != '"' {
        return false;
    }
    let w = skip_run(t, k + 1, e, CharClass::Space);
    if w == k + 1 || e < 3 || w > e - 3 || t[w] != '=' {
        return false;
    }
    class_has(t[w + 1], CharClass::Space)
}

/// The entries of a power-source registry dump.
pub fn scan_entries(text: &str) -> (r: Vec<(String, String)>)
    ensures
        entries_view(r@) == registry_entries(text@),
{
    let t = chars_of(text);
    let n = t.len();
    let mut out: Vec<(String, String)> = Vec::new();
    let mut p: usize = 0;
    while p < n
        invariant
            n == t@.len(),
            t@ == text@,
            p <= n,
            entries_from(t@, 0) == entries_view(out@) + entries_from(t@, p as int),
        decreases n - p,
    {
        let e = skip_run(&t, p, n, CharClass::NotNewline);
        let mut q = p;
        while q < e && !is_entry_at(&t, q, e)
            invariant
                p <= q <= e <= n,
                n == t@.len(),
                first_entry(t@, p as int, e as int) == first_entry(t@, q as int, e as int),
            decreases e - q,
        {
            q = q + 1;
        }
        let ghost old_out = out@;
        if q < e {
            let k = skip_run(&t, q + 1, e, CharClass::KeyName);
            let w = skip_run(&t, k + 1, e, CharClass::Space);
            let (a, b) = strip_range(&t, w + 1, e, CharClass::Space);
            let key = string_of(&t, q + 1, k);
            let value = string_of(&t, a, b);
            out.push((key, value));
            assert(entries_view(out@) =~= entries_view(old_out).push(entry_parts(t@, q as int, e as int)));
            assert(entries_view(out@) + entries_from(t@, e + 1) =~= entries_view(old_out) + (seq![entry_parts(t@, q as int, e as int)] + entries_from(t@, e + 1)));
        }
        p = if e < n {
            e + 1
        } else {
            n
        };
    }
    assert(entries_view(out@) + Seq::empty() =~= entries_view(out@));
    out
}

} // verus!

//! Device identity from the platform's device registry, and the boot time.

use crate::text::{
    chars_of, has_lit, is_hex, lemma_run_end, lit_at, opt_text, parse_digits, run_end,
    skip_run, string_of, CharClass,
};
use crate::tool::RawOutput;
use vstd::prelude::*;
use vstd::utf8::{decode_utf8, valid_utf8};

verus! {

/// How a registry value is written.
pub enum RawValue {
    /// `"text"` or `<"text">`: the text between the quotes.
    Text(int, int),
    /// `<68 65 78>`: hex bytes separated by spaces.
    Hex(int, int),
}

/// `"key"`, `=`, then a value, at `p`; white space may stand around `=`.
pub open spec fn property_at(t: Seq<char>, p: int, key: Seq<char>) -> Option<RawValue> {
    let n = t.len() as int;
    let k = p + 1 + key.len();
    let w1 = run_end(t, k + 1, n, CharClass::Space);
    let w2 = run_end(t, w1 + 1, n, CharClass::Space);
    let c1 = run_end(t, w2 + 1, n, CharClass::NotQuote);
    let c2 = run_end(t, w2 + 2, n, CharClass::NotQuote);
    let c3 = run_end(t, w2 + 1, n, CharClass::HexSpace);
    if !(0 <= p && k < n && t[p] == '"' && lit_at(t, p + 1, n, key) && t[k] == '"' && w1 < n
        && t[w1] == '=' && w2 < n) {
        None
    } else if t[w2] == '"' && w2 + 1 < c1 < n {
        Some(RawValue::Text(w2 + 1, c1))
    } else if t[w2] == '<' && w2 + 1 < n && t[w2 + 1] == '"' && w2 + 2 < c2 && c2 + 1 < n && t[c2
        + 1] == '>' {
        Some(RawValue::Text(w2 + 2, c2))
    } else if t[w2] == '<' && w2 + 1 < c3 < n && t[c3] == '>' {
        Some(RawValue::Hex(w2 + 1, c3))
    } else {
        None
    }
}

pub open spec fn first_property(t: Seq<char>, p: int, key: Seq<char>) -> Option<RawValue>
    decreases t.len() - p,
{
    if p < 0 || p >= t.len() {
        None
    } else if property_at(t, p, key) is Some {
        property_at(t, p, key)
    } else {
        first_property(t, p + 1, key)
    }
}

pub open spec fn hex_digit_value(c: char) -> int {
    if '0' <= c <= '9' {
        (c as u32) - 48
    } else if 'a' <= c <= 'f' {
        (c as u32) - 87
    } else {
        (c as u32) - 55
    }
}

pub open spec fn hex_value(s: Seq<char>) -> nat
    decreases s.len(),
{
    if s.len() == 0 {
        0
    } else {
        (hex_value(s.drop_last()) * 16 + hex_digit_value(s.last())) as nat
    }
}

/// The bytes of the space-separated hex tokens in `[q, b)`; a token too large for a byte is
/// skipped.
pub open spec fn hex_bytes_from(t: Seq<char>, q: int, b: int) -> Seq<u8>
    decreases b - q via hex_bytes_from_decreases
{
    let s = run_end(t, q, b, CharClass::Space);
    let e = run_end(t, s, b, CharClass::Hex);
    if q < 0 || b > t.len() || s >= b || e <= s {
        Seq::empty()
    } else {
        let v = hex_value(t.subrange(s, e));
        let here = if v < 256 {
            seq![v as u8]
        } else {
            Seq::empty()
        };
        here + hex_bytes_from(t, e, b)
    }
}

#[via_fn]
proof fn hex_bytes_from_decreases(t: Seq<char>, q: int, b: int) {
    if 0 <= q <= b <= t.len() {
        lemma_run_end(t, q, b, CharClass::Space);
        let s = run_end(t, q, b, CharClass::Space);
        lemma_run_end(t, s, b, CharClass::Hex);
    }
}

/// The value of registry property `key`: the first place the key is written with a value
/// decides. Quoted text is taken as it stands; hex bytes are decoded as UTF-8, and bytes
/// that are not valid UTF-8 give no value.
pub open spec fn property_value(t: Seq<char>, key: Seq<char>) -> Option<Seq<char>> {
    match first_property(t, 0, key) {
        Some(RawValue::Text(a, b)) => Some(t.subrange(a, b)),
        Some(RawValue::Hex(a, b)) => if valid_utf8(hex_bytes_from(t, a, b)) {
            Some(decode_utf8(hex_bytes_from(t, a, b)))
        } else {
            None
        },
        None => None,
    }
}

/// Relies on `String::from_utf8`: it succeeds exactly on valid UTF-8 and then holds the
/// decoded characters.
#[verifier::external_body]
fn utf8_text(bytes: Vec<u8>) -> (r: Option<String>)
    ensures
        r is Some <==> valid_utf8(bytes@),
        r matches Some(s) ==> s@ == decode_utf8(bytes@),
{
    String::from_utf8(bytes).ok()
}

enum ExecValue {
    Text(usize, usize),
    Hex(usize, usize),
}

fn property_at_exec(t: &Vec<char>, p: usize, key: &str) -> (r: Option<ExecValue>)
    requires
        p < t@.len(),
    ensures
        match property_at(t@, p as int, key@) {
            Some(RawValue::Text(a, b)) => r matches Some(ExecValue::Text(x, y)) && x == a && y == b
                && x <= y <= t@.len(),
            Some(RawValue::Hex(a, b)) => r matches Some(ExecValue::Hex(x, y)) && x == a && y == b
                && x <= y <= t@.len(),
            None => r is None,
        },
{
    let n = t.len();
    let kl = key.unicode_len();
    if t[p] != '"' || kl >= n - p - 1 || !has_lit(t, p + 1, n, key) {
        return None;
    }
    let k = p + 1 + kl;
    if t[k] != '"' {
        return None;
    }
    let w1 = skip_run(t, k + 1, n, CharClass::Space);
    if !(w1 < n && t[w1] == '=') {
        return None;
    }
    let w2 = skip_run(t, w1 + 1, n, CharClass::Space);
    if w2 >= n {
        return None;
    }
    if t[w2] == '"' {
        let c1 = skip_run(t, w2 + 1, n, CharClass::NotQuote);
        if w2 + 1 < c1 && c1 < n {
            return Some(ExecValue::Text(w2 + 1, c1));
        }
    }
    if t[w2] == '<' && w2 + 1 < n && t[w2 + 1] == '"' {
        let c2 = skip_run(t, w2 + 2, n, CharClass::NotQuote);
        if w2 + 2 < c2 && c2 < n - 1 && t[c2 + 1] == '>' {
            return Some(ExecValue::Text(w2 + 2, c2));
        }
    }
    if t[w2] == '<' {
        let c3 = skip_run(t, w2 + 1, n, CharClass::HexSpace);
        if w2 + 1 < c3 && c3 < n && t[c3] == '>' {
            return Some(ExecValue::Hex(w2 + 1, c3));
        }
    }
    proof {
        lemma_run_end(t@, w2 + 1, n as int, CharClass::NotQuote);
    }
    None
}

fn hex_value_exec(t: &Vec<char>, s: usize, e: usize) -> (r: Option<u8>)
    requires
        s <= e <= t@.len(),
        forall|i: int| s <= i < e ==> is_hex(#[trigger] t@[i]),
    ensures
        r is Some <==> hex_value(t@.subrange(s as int, e as int)) < 256,
        r matches Some(v) ==> v == hex_value(t@.subrange(s as int, e as int)),
{
    let mut acc: u64 = 0;
    let mut i = s;
    assert(t@.subrange(s as int, s as int) =~= Seq::<char>::empty());
    while i < e
        invariant
            s <= i <= e <= t@.len(),
            forall|j: int| s <= j < e ==> is_hex(#[trigger] t@[j]),
            acc == hex_value(t@.subrange(s as int, i as int)),
            acc < 256,
        decreases e - i,
    {
        assert(t@.subrange(s as int, i + 1).drop_last() =~= t@.subrange(s as int, i as int));
        let c = t[i];
        assert(is_hex(t@[i as int]));
        let d: u64 = if '0' <= c && c <= '9' {
            (c as u32 - 48) as u64
        } else if 'a' <= c && c <= 'f' {
            (c as u32 - 87) as u64
        } else {
            (c as u32 - 55) as u64
        };
        let next = acc * 16 + d;
        if next >= 256 {
            proof {
                lemma_hex_prefix(t@.subrange(s as int, e as int), i + 1 - s);
                assert(t@.subrange(s as int, e as int).subrange(0, i + 1 - s) =~= t@.subrange(
                    s as int,
                    i + 1,
                ));
            }
            return None;
        }
        acc = next;
        i = i + 1;
    }
    Some(acc as u8)
}

proof fn lemma_hex_prefix(s: Seq<char>, n: int)
    requires
        0 <= n <= s.len(),
        forall|i: int| 0 <= i < s.len() ==> is_hex(#[trigger] s[i]),
    ensures
        hex_value(s.subrange(0, n)) <= hex_value(s),
    decreases s.len(),
{
    if n < s.len() {
        assert forall|i: int| 0 <= i < s.drop_last().len() implies is_hex(
            #[trigger] s.drop_last()[i],
        ) by {
            assert(s.drop_last()[i] == s[i]);
        }
        lemma_hex_prefix(s.drop_last(), n);
        assert(s.drop_last().subrange(0, n) == s.subrange(0, n));
        assert(is_hex(s[s.len() - 1]));
    } else {
        assert(s.subrange(0, n) == s);
    }
}

fn hex_bytes_exec(t: &Vec<char>, a: usize, b: usize) -> (r: Vec<u8>)
    requires
        a <= b <= t@.len(),
    ensures
        r@ == hex_bytes_from(t@, a as int, b as int),
{
    let mut out: Vec<u8> = Vec::new();
    let mut q = a;
    while q < b
        invariant
            a <= q <= b <= t@.len(),
            hex_bytes_from(t@, a as int, b as int) == out@ + hex_bytes_from(t@, q as int, b as int),
        decreases b - q,
    {
        let s = skip_run(t, q, b, CharClass::Space);
        let e = skip_run(t, s, b, CharClass::Hex);
        if s >= b || e <= s {
            assert(out@ + hex_bytes_from(t@, q as int, b as int) =~= out@);
            return out;
        }
        proof {
            lemma_run_end(t@, s as int, b as int, CharClass::Hex);
        }
        let ghost before = out@;
        match hex_value_exec(t, s, e) {
            Some(v) => {
                out.push(v);
            },
            None => {},
        }
        assert(before + hex_bytes_from(t@, q as int, b as int) =~= out@ + hex_bytes_from(
            t@,
            e as int,
            b as int,
        ));
        q = e;
    }
    assert(hex_bytes_from(t@, q as int, b as int) =~= Seq::<u8>::empty());
    assert(out@ + Seq::<u8>::empty() =~= out@);
    out
}

/// The value of registry property `key` in a device-registry dump.
pub fn registry_property(text: &str, key: &str) -> (r: Option<String>)
    ensures
        opt_text(r) == property_value(text@, key@),
{
    let t = chars_of(text);
    let n = t.len();
    let mut p: usize = 0;
    while p < n
        invariant
            n == t@.len(),
            t@ == text@,
            p <= n,
            first_property(t@, 0, key@) == first_property(t@, p as int, key@),
        decreases n - p,
    {
        match property_at_exec(&t, p, key) {
            Some(ExecValue::Text(a, b)) => {
                return Some(string_of(&t, a, b));
            },
            Some(ExecValue::Hex(a, b)) => {
                let bytes = hex_bytes_exec(&t, a, b);
                return utf8_text(bytes);
            },
            None => {},
        }
        p = p + 1;
    }
    None
}


/// `{ sec = N,` at `p`.
pub open spec fn boot_secs_at(t: Seq<char>, p: int) -> bool {
    let d = run_end(t, p + 8, t.len() as int, CharClass::Digit);
    lit_at(t, p, t.len() as int, "{ sec = "@) && p + 8 < d < t.len() && t[d] == ','
}

pub open spec fn first_boot_secs(t: Seq<char>, p: int) -> Option<int>
    decreases t.len() - p,
{
    if p < 0 || p >= t.len() {
        None
    } else if boot_secs_at(t, p) {
        Some(p)
    } else {
        first_boot_secs(t, p + 1)
    }
}

/// The seconds of the first `{ sec = N,` in a boot-time report, if they fit in an `i64`.
pub open spec fn boot_seconds_of(t: Seq<char>) -> Option<int> {
    match first_boot_secs(t, 0) {
        Some(p) => {
            let v = crate::text::decimal_value(
                t.subrange(p + 8, run_end(t, p + 8, t.len() as int, CharClass::Digit)),
            );
            if v <= i64::MAX {
                Some(v as int)
            } else {
                None
            }
        },
        None => None,
    }
}

/// The seconds since the Unix epoch at which the machine booted.
pub fn boot_seconds(text: &str) -> (r: Option<i64>)
    ensures
        r is Some <==> boot_seconds_of(text@) is Some,
        r matches Some(v) ==> boot_seconds_of(text@) == Some(v as int),
{
    proof {
        reveal_strlit("{ sec = ");
        assert("{ sec = "@.len() == 8);
    }
    let t = chars_of(text);
    let n = t.len();
    let mut p: usize = 0;
    while p < n
        invariant
            n == t@.len(),
            t@ == text@,
            p <= n,
            "{ sec = "@.len() == 8,
            first_boot_secs(t@, 0) == first_boot_secs(t@, p as int),
        decreases n - p,
    {
        if has_lit(&t, p, n, "{ sec = ") {
            let d = skip_run(&t, p + 8, n, CharClass::Digit);
            if p + 8 < d && d < n && t[d] == ',' {
                proof {
                    lemma_run_end(t@, p + 8, n as int, CharClass::Digit);
                    assert(crate::text::all_digits(t@.subrange(p + 8, d as int)));
                }
                return match parse_digits(&t, p + 8, d, 0x7fff_ffff_ffff_ffff) {
                    Some(v) => Some(v as i64),
                    None => None,
                };
            }
        }
        p = p + 1;
    }
    None
}

/// The UTC time `secs` seconds after the Unix epoch, written with the strftime `pattern`;
/// absent outside the range of dates that can be represented.
pub uninterp spec fn utc_formatted(secs: int, pattern: Seq<char>) -> Option<Seq<char>>;

/// Relies on `chrono::DateTime::from_timestamp` (absent out of range) and on `format` with
/// a strftime pattern: the text depends on the seconds and the pattern alone.
/// The pattern is held to the one this library uses: chrono's formatting fails on a pattern
/// it rejects, and `to_string` then panics.
#[verifier::external_body]
fn utc_text(secs: i64, pattern: &str) -> (r: Option<String>)
    requires
        pattern@ == iso8601_pattern(),
    ensures
        opt_text(r) == utc_formatted(secs as int, pattern@),
{
    chrono::DateTime::from_timestamp(secs, 0).map(|dt| dt.naive_utc().format(pattern).to_string())
}

/// ISO 8601 in UTC, to the second.
pub open spec fn iso8601_pattern() -> Seq<char> {
    "%Y-%m-%dT%H:%M:%SZ"@
}

/// The boot time of a boot-time report, as ISO 8601 UTC.
pub open spec fn boot_time_of(t: Seq<char>) -> Option<Seq<char>> {
    match boot_seconds_of(t) {
        Some(s) => utc_formatted(s, iso8601_pattern()),
        None => None,
    }
}

pub fn boot_time_utc(text: &str) -> (r: Option<String>)
    ensures
        opt_text(r) == boot_time_of(text@),
{
    match boot_seconds(text) {
        Some(s) => utc_text(s, "%Y-%m-%dT%H:%M:%SZ"),
        None => None,
    }
}

/// The device's identity, boot time and uptime.
pub struct DeviceInfo {
    pub serial_number: Option<String>,
    pub hardware_uuid: Option<String>,
    pub model_identifier: Option<String>,
    /// ISO 8601, UTC.
    pub boot_time_utc: Option<String>,
    pub uptime_seconds: u64,
}

/// What a run of a tool says, if it could be run.
pub open spec fn when_run(out: RawOutput, v: Option<Seq<char>>) -> Option<Seq<char>> {
    if out.launched {
        v
    } else {
        None
    }
}

/// The device snapshot from a device-registry dump and a boot-time report; a tool that
/// cannot be run leaves its fields absent. Never fails.
pub fn device_info(registry: &RawOutput, boot_report: &RawOutput, uptime_seconds: u64) -> (r: DeviceInfo)
    ensures
        opt_text(r.serial_number) == when_run(
            *registry,
            property_value(registry.stdout@, "IOPlatformSerialNumber"@),
        ),
        opt_text(r.hardware_uuid) == when_run(
            *registry,
            property_value(registry.stdout@, "IOPlatformUUID"@),
        ),
        opt_text(r.model_identifier) == when_run(*registry, property_value(registry.stdout@, "model"@)),
        opt_text(r.boot_time_utc) == when_run(*boot_report, boot_time_of(boot_report.stdout@)),
        r.uptime_seconds == uptime_seconds,
{
    let (serial_number, hardware_uuid, model_identifier) = if registry.launched {
        let text = registry.stdout.as_str();
        (
            registry_property(text, "IOPlatformSerialNumber"),
            registry_property(text, "IOPlatformUUID"),
            registry_property(text, "model"),
        )
    } else {
        (None, None, None)
    };
    let boot_time_utc = if boot_report.launched {
        boot_time_utc(boot_report.stdout.as_str())
    } else {
        None
    };
    DeviceInfo { serial_number, hardware_uuid, model_identifier, boot_time_utc, uptime_seconds }
}


/// `"key" = "v"`.
pub open spec fn quoted_form(key: Seq<char>, v: Seq<char>) -> Seq<char> {
    seq!['"'] + key + seq!['"', ' ', '=', ' ', '"'] + v + seq!['"']
}

/// `"key" = <"v">`.
pub open spec fn angle_form(key: Seq<char>, v: Seq<char>) -> Seq<char> {
    seq!['"'] + key + seq!['"', ' ', '=', ' ', '<', '"'] + v + seq!['"', '>']
}

pub open spec fn spaces(n: nat) -> Seq<char> {
    Seq::new(n, |i: int| ' ')
}

/// The tokens `toks`, token `i` preceded by `gaps[i]` spaces, then `gaps[toks.len()]`
/// spaces.
pub open spec fn spaced_tokens(toks: Seq<Seq<char>>, gaps: Seq<nat>) -> Seq<char>
    decreases toks.len(),
{
    if toks.len() == 0 {
        spaces(gaps[0])
    } else {
        spaces(gaps[0]) + toks[0] + spaced_tokens(toks.drop_first(), gaps.drop_first())
    }
}

/// Non-empty tokens of hex digits, in either case, with at least one space between two.
pub open spec fn token_layout(toks: Seq<Seq<char>>, gaps: Seq<nat>) -> bool {
    &&& gaps.len() == toks.len() + 1
    &&& forall|i: int| 1 <= i < toks.len() ==> #[trigger] gaps[i] >= 1
    &&& forall|i: int| 0 <= i < toks.len() ==> (#[trigger] toks[i]).len() > 0
    &&& forall|i: int, j: int|
        0 <= i < toks.len() && 0 <= j < toks[i].len() ==> is_hex(#[trigger] toks[i][j])
}

/// The byte of each token whose value fits in one, in order.
pub open spec fn token_bytes(toks: Seq<Seq<char>>) -> Seq<u8>
    decreases toks.len(),
{
    if toks.len() == 0 {
        Seq::empty()
    } else {
        let v = hex_value(toks[0]);
        (if v < 256 {
            seq![v as u8]
        } else {
            Seq::empty()
        }) + token_bytes(toks.drop_first())
    }
}

/// `"key" = <tokens>`.
pub open spec fn hex_form(key: Seq<char>, toks: Seq<Seq<char>>, gaps: Seq<nat>) -> Seq<char> {
    seq!['"'] + key + seq!['"', ' ', '=', ' ', '<'] + spaced_tokens(toks, gaps) + seq!['>']
}

proof fn lemma_layout_tail(toks: Seq<Seq<char>>, gaps: Seq<nat>)
    requires
        token_layout(toks, gaps),
        toks.len() > 0,
    ensures
        token_layout(toks.drop_first(), gaps.drop_first()),
{
    let t2 = toks.drop_first();
    let g2 = gaps.drop_first();
    assert forall|i: int| 1 <= i < t2.len() implies #[trigger] g2[i] >= 1 by {
        assert(g2[i] == gaps[i + 1]);
    }
    assert forall|i: int| 0 <= i < t2.len() implies (#[trigger] t2[i]).len() > 0 by {
        assert(t2[i] == toks[i + 1]);
    }
    assert forall|i: int, j: int| 0 <= i < t2.len() && 0 <= j < t2[i].len() implies is_hex(
        #[trigger] t2[i][j],
    ) by {
        assert(t2[i] == toks[i + 1]);
    }
}

proof fn lemma_spaced_shape(toks: Seq<Seq<char>>, gaps: Seq<nat>)
    requires
        token_layout(toks, gaps),
    ensures
        forall|i: int| 0 <= i < spaced_tokens(toks, gaps).len() ==> crate::text::in_class(
            #[trigger] spaced_tokens(toks, gaps)[i],
            CharClass::HexSpace,
        ),
        toks.len() > 0 ==> spaced_tokens(toks, gaps).len() > 0,
    decreases toks.len(),
{
    let st = spaced_tokens(toks, gaps);
    if toks.len() == 0 {
        assert forall|i: int| 0 <= i < st.len() implies crate::text::in_class(
            #[trigger] st[i],
            CharClass::HexSpace,
        ) by {
            assert(st[i] == ' ');
        }
    } else {
        lemma_layout_tail(toks, gaps);
        lemma_spaced_shape(toks.drop_first(), gaps.drop_first());
        let sp = spaces(gaps[0]);
        let t0 = toks[0];
        let rest = spaced_tokens(toks.drop_first(), gaps.drop_first());
        assert(st == sp + t0 + rest);
        assert(t0.len() > 0);
        assert forall|i: int| 0 <= i < st.len() implies crate::text::in_class(
            #[trigger] st[i],
            CharClass::HexSpace,
        ) by {
            if i < sp.len() {
                assert(st[i] == ' ');
            } else if i < sp.len() + t0.len() {
                assert(st[i] == t0[i - sp.len()]);
                assert(is_hex(toks[0][i - sp.len()]));
            } else {
                assert(st[i] == rest[i - sp.len() - t0.len()]);
            }
        }
    }
}

proof fn lemma_spaced_bytes(t: Seq<char>, q: int, end: int, toks: Seq<Seq<char>>, gaps: Seq<nat>)
    requires
        0 <= q <= end <= t.len(),
        token_layout(toks, gaps),
        t.subrange(q, end) == spaced_tokens(toks, gaps),
    ensures
        hex_bytes_from(t, q, end) == token_bytes(toks),
    decreases toks.len(),
{
    let g0 = gaps[0] as int;
    let sp = spaces(gaps[0]);
    if toks.len() == 0 {
        assert(sp.len() == g0);
        assert(q + g0 == end);
        assert forall|i: int| q <= i < q + g0 implies crate::text::in_class(
            #[trigger] t[i],
            CharClass::Space,
        ) by {
            assert(t[i] == t.subrange(q, end)[i - q]);
        }
        lemma_run_end_at(t, q, end, CharClass::Space, end);
    } else {
        let t0 = toks[0];
        let rest = spaced_tokens(toks.drop_first(), gaps.drop_first());
        let s0 = q + g0;
        let e0 = s0 + t0.len();
        assert(t.subrange(q, end) == sp + t0 + rest);
        assert(sp.len() == g0);
        assert(end - q == g0 + t0.len() + rest.len());
        assert forall|i: int| q <= i < s0 implies crate::text::in_class(
            #[trigger] t[i],
            CharClass::Space,
        ) by {
            assert(t[i] == t.subrange(q, end)[i - q]);
        }
        assert forall|i: int| s0 <= i < e0 implies crate::text::in_class(
            #[trigger] t[i],
            CharClass::Hex,
        ) by {
            assert(t[i] == t.subrange(q, end)[i - q]);
            assert(t.subrange(q, end)[i - q] == t0[i - s0]);
            assert(is_hex(toks[0][i - s0]));
        }
        assert(t[s0] == t.subrange(q, end)[g0]);
        assert((sp + t0 + rest)[g0] == t0[0]);
        assert(is_hex(toks[0][0]));
        lemma_run_end_at(t, q, end, CharClass::Space, s0);
        lemma_layout_tail(toks, gaps);
        if e0 < end {
            assert(t[e0] == t.subrange(q, end)[e0 - q]);
            assert((sp + t0 + rest)[e0 - q] == rest[0]);
            if toks.len() > 1 {
                assert(gaps.drop_first()[0] == gaps[1] && gaps[1] >= 1);
            }
            assert(rest[0] == ' ');
        }
        lemma_run_end_at(t, s0, end, CharClass::Hex, e0);
        assert forall|i: int| 0 <= i < t0.len() implies #[trigger] t.subrange(s0, e0)[i] == t0[i] by {
            assert(t.subrange(s0, e0)[i] == t.subrange(q, end)[g0 + i]);
            assert((sp + t0 + rest)[g0 + i] == t0[i]);
        }
        assert(t.subrange(s0, e0) =~= t0);
        assert forall|i: int| 0 <= i < rest.len() implies #[trigger] t.subrange(e0, end)[i] == rest[i] by {
            assert(t.subrange(e0, end)[i] == t.subrange(q, end)[g0 + t0.len() + i]);
            assert((sp + t0 + rest)[g0 + t0.len() + i] == rest[i]);
        }
        assert(t.subrange(e0, end) =~= rest);
        lemma_spaced_bytes(t, e0, end, toks.drop_first(), gaps.drop_first());
    }
}

/// No entry for `key` starts before `m`.
pub open spec fn no_entry_before(t: Seq<char>, m: int, key: Seq<char>) -> bool {
    forall|p: int| 0 <= p < m ==> #[trigger] property_at(t, p, key) is None
}

proof fn lemma_run_end_at(t: Seq<char>, p: int, e: int, k: CharClass, m: int)
    requires
        0 <= p <= m <= e <= t.len(),
        forall|i: int| p <= i < m ==> crate::text::in_class(#[trigger] t[i], k),
        m == e || !crate::text::in_class(t[m], k),
    ensures
        run_end(t, p, e, k) == m,
    decreases m - p,
{
    if p < m {
        lemma_run_end_at(t, p + 1, e, k, m);
    }
}

proof fn lemma_skip_to(t: Seq<char>, p: int, m: int, key: Seq<char>)
    requires
        0 <= p <= m <= t.len(),
        no_entry_before(t, m, key),
    ensures
        first_property(t, p, key) == first_property(t, m, key),
    decreases m - p,
{
    if p < m {
        assert(property_at(t, p, key) is None);
        lemma_skip_to(t, p + 1, m, key);
    }
}

/// The entry that starts at `p0` once `key` and the separator ` = ` are read: its value
/// starts at `p0 + key.len() + 5`.
proof fn lemma_entry_head(t: Seq<char>, p0: int, key: Seq<char>)
    requires
        0 <= p0,
        p0 + key.len() + 6 <= t.len(),
        t[p0] == '"',
        t.subrange(p0 + 1, p0 + 1 + key.len()) == key,
        t[p0 + 1 + key.len()] == '"',
        t[p0 + 2 + key.len()] == ' ',
        t[p0 + 3 + key.len()] == '=',
        t[p0 + 4 + key.len()] == ' ',
        !crate::text::is_ws(t[p0 + 5 + key.len()]),
    ensures
        ({
            let k = p0 + 1 + key.len();
            let w1 = run_end(t, k + 1, t.len() as int, CharClass::Space);
            let w2 = run_end(t, w1 + 1, t.len() as int, CharClass::Space);
            w1 == k + 2 && w2 == k + 4 && crate::text::lit_at(t, p0 + 1, t.len() as int, key)
        }),
{
    let n = t.len() as int;
    let k = p0 + 1 + key.len();
    lemma_run_end_at(t, k + 1, n, CharClass::Space, k + 2);
    lemma_run_end_at(t, k + 3, n, CharClass::Space, k + 4);
}

proof fn lemma_quoted_chars(key: Seq<char>, v: Seq<char>)
    ensures
        ({
            let f = quoted_form(key, v);
            let k = key.len() as int;
            &&& f.len() == k + v.len() + 7
            &&& f[0] == '"' && f.subrange(1, 1 + k) == key && f[1 + k] == '"' && f[2 + k] == ' '
            &&& f[3 + k] == '=' && f[4 + k] == ' ' && f[5 + k] == '"'
            &&& f.subrange(6 + k, 6 + k + v.len()) == v
            &&& f[6 + k + v.len()] == '"'
        }),
{
    let f = quoted_form(key, v);
    let k = key.len() as int;
    assert(f.subrange(1, 1 + k) =~= key);
    assert(f.subrange(6 + k, 6 + k + v.len()) =~= v);
}

proof fn lemma_angle_chars(key: Seq<char>, v: Seq<char>)
    ensures
        ({
            let f = angle_form(key, v);
            let k = key.len() as int;
            &&& f.len() == k + v.len() + 9
            &&& f[0] == '"' && f.subrange(1, 1 + k) == key && f[1 + k] == '"' && f[2 + k] == ' '
            &&& f[3 + k] == '=' && f[4 + k] == ' ' && f[5 + k] == '<' && f[6 + k] == '"'
            &&& f.subrange(7 + k, 7 + k + v.len()) == v
            &&& f[7 + k + v.len()] == '"' && f[8 + k + v.len()] == '>'
        }),
{
    let f = angle_form(key, v);
    let k = key.len() as int;
    assert(f.subrange(1, 1 + k) =~= key);
    assert(f.subrange(7 + k, 7 + k + v.len()) =~= v);
}

proof fn lemma_hex_chars(key: Seq<char>, toks: Seq<Seq<char>>, gaps: Seq<nat>)
    ensures
        ({
            let f = hex_form(key, toks, gaps);
            let k = key.len() as int;
            let h = spaced_tokens(toks, gaps).len() as int;
            &&& f.len() == k + h + 7
            &&& f[0] == '"' && f.subrange(1, 1 + k) == key && f[1 + k] == '"' && f[2 + k] == ' '
            &&& f[3 + k] == '=' && f[4 + k] == ' ' && f[5 + k] == '<'
            &&& f.subrange(6 + k, 6 + k + h) == spaced_tokens(toks, gaps)
            &&& f[6 + k + h] == '>'
        }),
{
    let f = hex_form(key, toks, gaps);
    let k = key.len() as int;
    let h = spaced_tokens(toks, gaps).len() as int;
    assert(f.subrange(1, 1 + k) =~= key);
    assert(f.subrange(6 + k, 6 + k + h) =~= spaced_tokens(toks, gaps));
}

/// Where a text holds `"key" = "v"` at `p0`, and no entry for the key starts earlier, the
/// property reads as `v`.
pub proof fn lemma_quoted_value(t: Seq<char>, p0: int, key: Seq<char>, v: Seq<char>)
    requires
        0 <= p0,
        p0 + quoted_form(key, v).len() <= t.len(),
        t.subrange(p0, p0 + quoted_form(key, v).len()) == quoted_form(key, v),
        v.len() > 0,
        forall|i: int| 0 <= i < v.len() ==> v[i] != '"',
        no_entry_before(t, p0, key),
    ensures
        property_value(t, key) == Some(v),
{
    let f = quoted_form(key, v);
    let k = key.len() as int;
    let n = t.len() as int;
    lemma_quoted_chars(key, v);
    lemma_skip_to(t, 0, p0, key);
    assert forall|j: int| 0 <= j < f.len() implies t[p0 + j] == #[trigger] f[j] by {
        assert(t.subrange(p0, p0 + f.len())[j] == f[j]);
    }
    assert(t.subrange(p0 + 1, p0 + 1 + k) =~= f.subrange(1, 1 + k));
    assert(t[p0 + 5 + k] == f[5 + k]);
    lemma_entry_head(t, p0, key);
    let s = p0 + 6 + k;
    assert forall|i: int| s <= i < s + v.len() implies crate::text::in_class(
        #[trigger] t[i],
        CharClass::NotQuote,
    ) by {
        assert(t[i] == f[i - p0]);
        assert(f[i - p0] == f.subrange(6 + k, 6 + k + v.len())[i - p0 - 6 - k]);
    }
    assert(t[s + v.len()] == f[6 + k + v.len()]);
    lemma_run_end_at(t, s, n, CharClass::NotQuote, s + v.len());
    assert(t.subrange(s, s + v.len()) =~= f.subrange(6 + k, 6 + k + v.len()));
}

/// Where a text holds `"key" = <"v">` at `p0`, and no entry for the key starts earlier, the
/// property reads as `v`.
pub proof fn lemma_angle_value(t: Seq<char>, p0: int, key: Seq<char>, v: Seq<char>)
    requires
        0 <= p0,
        p0 + angle_form(key, v).len() <= t.len(),
        t.subrange(p0, p0 + angle_form(key, v).len()) == angle_form(key, v),
        v.len() > 0,
        forall|i: int| 0 <= i < v.len() ==> v[i] != '"',
        no_entry_before(t, p0, key),
    ensures
        property_value(t, key) == Some(v),
{
    let f = angle_form(key, v);
    let k = key.len() as int;
    let n = t.len() as int;
    lemma_angle_chars(key, v);
    lemma_skip_to(t, 0, p0, key);
    assert forall|j: int| 0 <= j < f.len() implies t[p0 + j] == #[trigger] f[j] by {
        assert(t.subrange(p0, p0 + f.len())[j] == f[j]);
    }
    assert(t.subrange(p0 + 1, p0 + 1 + k) =~= f.subrange(1, 1 + k));
    assert(t[p0 + 5 + k] == f[5 + k]);
    assert(t[p0 + 6 + k] == f[6 + k]);
    lemma_entry_head(t, p0, key);
    let s = p0 + 7 + k;
    assert forall|i: int| s <= i < s + v.len() implies crate::text::in_class(
        #[trigger] t[i],
        CharClass::NotQuote,
    ) by {
        assert(t[i] == f[i - p0]);
        assert(f[i - p0] == f.subrange(7 + k, 7 + k + v.len())[i - p0 - 7 - k]);
    }
    assert(t[s + v.len()] == f[7 + k + v.len()]);
    assert(t[s + v.len() + 1] == f[8 + k + v.len()]);
    lemma_run_end_at(t, s, n, CharClass::NotQuote, s + v.len());
    assert(t.subrange(s, s + v.len()) =~= f.subrange(7 + k, 7 + k + v.len()));
}

proof fn lemma_window(t: Seq<char>, p0: int, f: Seq<char>)
    requires
        0 <= p0,
        p0 + f.len() <= t.len(),
        t.subrange(p0, p0 + f.len()) == f,
    ensures
        forall|j: int| 0 <= j < f.len() ==> t[p0 + j] == #[trigger] f[j],
{
    assert forall|j: int| 0 <= j < f.len() implies t[p0 + j] == #[trigger] f[j] by {
        assert(t.subrange(p0, p0 + f.len())[j] == f[j]);
    }
}

/// Where a text holds `"key" = <tokens>` at `p0`, with hex tokens spelt in either case and
/// separated by spaces, and no entry for the key starts earlier, the property reads as the
/// UTF-8 decoding of the tokens' bytes, and as nothing when they are not valid UTF-8.
pub proof fn lemma_hex_value(
    t: Seq<char>,
    p0: int,
    key: Seq<char>,
    toks: Seq<Seq<char>>,
    gaps: Seq<nat>,
)
    requires
        0 <= p0,
        p0 + hex_form(key, toks, gaps).len() <= t.len(),
        t.subrange(p0, p0 + hex_form(key, toks, gaps).len()) == hex_form(key, toks, gaps),
        toks.len() > 0,
        token_layout(toks, gaps),
        no_entry_before(t, p0, key),
    ensures
        property_value(t, key) == if valid_utf8(token_bytes(toks)) {
            Some(decode_utf8(token_bytes(toks)))
        } else {
            None
        },
{
    let f = hex_form(key, toks, gaps);
    let body = spaced_tokens(toks, gaps);
    let k = key.len() as int;
    let n = t.len() as int;
    let h = body.len() as int;
    lemma_hex_chars(key, toks, gaps);
    lemma_spaced_shape(toks, gaps);
    lemma_skip_to(t, 0, p0, key);
    lemma_window(t, p0, f);
    assert(t.subrange(p0 + 1, p0 + 1 + k) =~= f.subrange(1, 1 + k));
    assert(t[p0 + 5 + k] == f[5 + k]);
    let s = p0 + 6 + k;
    assert(t[s] == f[6 + k]);
    assert(f[6 + k] == body[0]);
    assert(crate::text::in_class(body[0], CharClass::HexSpace));
    lemma_entry_head(t, p0, key);
    assert forall|i: int| s <= i < s + h implies crate::text::in_class(
        #[trigger] t[i],
        CharClass::HexSpace,
    ) by {
        assert(t[i] == f[i - p0]);
        assert(f[i - p0] == f.subrange(6 + k, 6 + k + h)[i - p0 - 6 - k]);
    }
    assert(t[s + h] == f[6 + k + h]);
    lemma_run_end_at(t, s, n, CharClass::HexSpace, s + h);
    assert(t.subrange(s, s + h) =~= f.subrange(6 + k, 6 + k + h));
    lemma_spaced_bytes(t, s, s + h, toks, gaps);
}

} // verus!

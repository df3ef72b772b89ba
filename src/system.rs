//! Temperature readings from a sensor report, and the memory figures of the
//! system summaries.

use crate::text::{
    chars_of, contains_ci, copy_range, find_ci, opt_text, is_digit, lemma_run_end, line_end, run_end, skip_run, string_of,
    strip, strip_range, CharClass,
};
use crate::units::{kib_of_bytes, mib_of_bytes};
use vstd::prelude::*;

verus! {

/// Where the first character of class `k` stands in `s`, at or after `p`.
pub open spec fn first_of_class(s: Seq<char>, p: int, k: CharClass) -> int
    decreases s.len() - p,
{
    if p < 0 || p >= s.len() {
        s.len() as int
    } else if crate::text::in_class(s[p], k) {
        p
    } else {
        first_of_class(s, p + 1, k)
    }
}

/// The first run of digits, `.` and `-` in a line.
pub open spec fn number_token(s: Seq<char>) -> Seq<char> {
    let p = first_of_class(s, 0, CharClass::Numeric);
    s.subrange(p, run_end(s, p, s.len() as int, CharClass::Numeric))
}

/// A token of digits, `.` and `-` that `f32`'s `FromStr` accepts: an optional leading `-`,
/// then digits with at most one `.`, and at least one digit.
pub open spec fn decimal_reading(s: Seq<char>) -> bool {
    &&& forall|i: int| 0 <= i < unsigned_part(s).len() ==> unsigned_part(s)[i] != '-'
    &&& forall|i: int, j: int|
        0 <= i < j < unsigned_part(s).len() ==> !(unsigned_part(s)[i] == '.' && unsigned_part(
            s,
        )[j] == '.')
    &&& exists|i: int| 0 <= i < unsigned_part(s).len() && is_digit(#[trigger] unsigned_part(s)[i])
}

/// A token without its leading `-`.
pub open spec fn unsigned_part(s: Seq<char>) -> Seq<char> {
    if s.len() > 0 && s[0] == '-' {
        s.drop_first()
    } else {
        s
    }
}

/// What a report line is about.
#[derive(Clone, Copy, PartialEq, Eq, Structural, Debug)]
pub enum SensorKind {
    Cpu,
    Gpu,
    Other,
}

/// The kind of a trimmed line, by phrase, ignoring ASCII case.
pub open spec fn sensor_kind(l: Seq<char>) -> Option<SensorKind> {
    if contains_ci(l, "cpu die temperature"@) || contains_ci(l, "cpu temperature"@) {
        Some(SensorKind::Cpu)
    } else if contains_ci(l, "gpu die temperature"@) || contains_ci(l, "gpu temperature"@) {
        Some(SensorKind::Gpu)
    } else if contains_ci(l, "temperature"@) {
        Some(SensorKind::Other)
    } else {
        None
    }
}

/// The reading of the line `[q, e)`: its kind, the trimmed line, and its number.
pub open spec fn line_reading(t: Seq<char>, q: int, e: int) -> Option<
    (SensorKind, Seq<char>, Seq<char>),
> {
    let l = strip(t.subrange(q, e), CharClass::Space);
    match sensor_kind(l) {
        Some(k) => if decimal_reading(number_token(l)) {
            Some((k, l, number_token(l)))
        } else {
            None
        },
        None => None,
    }
}

/// The readings of the lines at or after the line start `p`, in order.
pub open spec fn readings_from(t: Seq<char>, p: int) -> Seq<(SensorKind, Seq<char>, Seq<char>)>
    decreases t.len() - p via readings_from_decreases
{
    if p < 0 || p >= t.len() {
        Seq::empty()
    } else {
        let e = line_end(t, p);
        let rest = if e < t.len() {
            readings_from(t, e + 1)
        } else {
            Seq::empty()
        };
        match line_reading(t, p, e) {
            Some(x) => seq![x] + rest,
            None => rest,
        }
    }
}

#[via_fn]
proof fn readings_from_decreases(t: Seq<char>, p: int) {
    if 0 <= p < t.len() {
        lemma_run_end(t, p, t.len() as int, CharClass::NotNewline);
    }
}

/// The number of the last reading of kind `k`.
pub open spec fn last_reading(rs: Seq<(SensorKind, Seq<char>, Seq<char>)>, k: SensorKind) -> Option<
    Seq<char>,
>
    decreases rs.len(),
{
    if rs.len() == 0 {
        None
    } else if rs.last().0 == k {
        Some(rs.last().2)
    } else {
        last_reading(rs.drop_last(), k)
    }
}

/// The `(line, number)` pairs of the readings of kind `Other`, in order.
pub open spec fn other_readings(rs: Seq<(SensorKind, Seq<char>, Seq<char>)>) -> Seq<
    (Seq<char>, Seq<char>),
>
    decreases rs.len(),
{
    if rs.len() == 0 {
        Seq::empty()
    } else if rs.last().0 == SensorKind::Other {
        other_readings(rs.drop_last()).push((rs.last().1, rs.last().2))
    } else {
        other_readings(rs.drop_last())
    }
}

/// Temperatures from a sensor report, each as the decimal text of degrees Celsius.
pub struct TemperatureReadings {
    pub cpu: Option<String>,
    pub gpu: Option<String>,
    /// Each other reading with the trimmed line it comes from.
    pub others: Vec<(String, String)>,
}

pub open spec fn pairs_view(v: Seq<(String, String)>) -> Seq<(Seq<char>, Seq<char>)> {
    v.map_values(|x: (String, String)| (x.0@, x.1@))
}

fn first_numeric(l: &Vec<char>, p: usize) -> (r: usize)
    requires
        p <= l@.len(),
    ensures
        r == first_of_class(l@, p as int, CharClass::Numeric),
        p <= r <= l@.len(),
{
    let mut i = p;
    while i < l.len() && !crate::text::class_has(l[i], CharClass::Numeric)
        invariant
            p <= i <= l@.len(),
            first_of_class(l@, p as int, CharClass::Numeric) == first_of_class(
                l@,
                i as int,
                CharClass::Numeric,
            ),
        decreases l@.len() - i,
    {
        i = i + 1;
    }
    i
}

fn is_decimal_reading(s: &Vec<char>) -> (r: bool)
    ensures
        r == decimal_reading(s@),
{
    let start: usize = if s.len() > 0 && s[0] == '-' {
        1
    } else {
        0
    };
    let ghost rest = unsigned_part(s@);
    assert(rest =~= s@.subrange(start as int, s@.len() as int));
    let mut dots: usize = 0;
    let mut digits: bool = false;
    let mut i = start;
    while i < s.len()
        invariant
            start <= i <= s@.len(),
            rest == s@.subrange(start as int, s@.len() as int),
            rest == unsigned_part(s@),
            forall|j: int| start <= j < i ==> s@[j] != '-',
            forall|j: int, k: int| start <= j < k < i ==> !(s@[j] == '.' && s@[k] == '.'),
            dots <= 1,
            dots == 0 ==> forall|j: int| start <= j < i ==> s@[j] != '.',
            dots == 1 ==> exists|j: int| start <= j < i && s@[j] == '.',
            digits <==> exists|j: int| start <= j < i && is_digit(#[trigger] s@[j]),
        decreases s@.len() - i,
    {
        let c = s[i];
        if c == '-' {
            assert(rest[i - start] == '-');
            return false;
        }
        if c == '.' {
            if dots == 1 {
                proof {
                    let j = choose|j: int| start <= j < i && s@[j] == '.';
                    assert(rest[j - start] == '.' && rest[i - start] == '.');
                }
                return false;
            }
            dots = 1;
        }
        if '0' <= c && c <= '9' {
            digits = true;
        }
        i = i + 1;
    }
    proof {
        if digits {
            let j = choose|j: int| start <= j < i && is_digit(#[trigger] s@[j]);
            assert(is_digit(rest[j - start]));
        } else {
            assert forall|j: int| 0 <= j < rest.len() implies !is_digit(#[trigger] rest[j]) by {
                assert(rest[j] == s@[j + start]);
            }
        }
        assert forall|a: int, b: int| 0 <= a < b < rest.len() implies !(rest[a] == '.' && rest[b]
            == '.') by {
            assert(rest[a] == s@[a + start] && rest[b] == s@[b + start]);
        }
        assert forall|a: int| 0 <= a < rest.len() implies rest[a] != '-' by {
            assert(rest[a] == s@[a + start]);
        }
    }
    digits
}


fn sensor_kind_exec(l: &Vec<char>) -> (r: Option<SensorKind>)
    ensures
        r == sensor_kind(l@),
{
    if find_ci(l, "cpu die temperature") || find_ci(l, "cpu temperature") {
        Some(SensorKind::Cpu)
    } else if find_ci(l, "gpu die temperature") || find_ci(l, "gpu temperature") {
        Some(SensorKind::Gpu)
    } else if find_ci(l, "temperature") {
        Some(SensorKind::Other)
    } else {
        None
    }
}

/// The temperatures of a sensor report. A line that mentions the CPU or the GPU
/// temperature gives that reading (the last such line wins); any other line that mentions
/// a temperature is kept with its number. A line whose first number is not a valid decimal
/// is passed over.
pub fn temperature_readings(text: &str) -> (r: TemperatureReadings)
    ensures
        opt_text(r.cpu) == last_reading(readings_from(text@, 0), SensorKind::Cpu),
        opt_text(r.gpu) == last_reading(readings_from(text@, 0), SensorKind::Gpu),
        pairs_view(r.others@) == other_readings(readings_from(text@, 0)),
{
    let t = chars_of(text);
    let n = t.len();
    let mut cpu: Option<String> = None;
    let mut gpu: Option<String> = None;
    let mut others: Vec<(String, String)> = Vec::new();
    let ghost mut seen: Seq<(SensorKind, Seq<char>, Seq<char>)> = Seq::empty();
    let mut p: usize = 0;
    assert(pairs_view(others@) =~= Seq::<(Seq<char>, Seq<char>)>::empty());
    while p < n
        invariant
            n == t@.len(),
            t@ == text@,
            p <= n,
            readings_from(t@, 0) == seen + readings_from(t@, p as int),
            opt_text(cpu) == last_reading(seen, SensorKind::Cpu),
            opt_text(gpu) == last_reading(seen, SensorKind::Gpu),
            pairs_view(others@) == other_readings(seen),
        decreases n - p,
    {
        let e = skip_run(&t, p, n, CharClass::NotNewline);
        let (a, b) = strip_range(&t, p, e, CharClass::Space);
        let l = copy_range(&t, a, b);
        let ghost before = seen;
        match sensor_kind_exec(&l) {
            Some(kind) => {
                let f = first_numeric(&l, 0);
                let g = skip_run(&l, f, l.len(), CharClass::Numeric);
                let tok = copy_range(&l, f, g);
                if is_decimal_reading(&tok) {
                    let ghost x = (kind, l@, tok@);
                    proof {
                        seen = seen.push(x);
                        assert(seen.drop_last() =~= before);
                    }
                    match kind {
                        SensorKind::Cpu => {
                            cpu = Some(string_of(&l, f, g));
                        },
                        SensorKind::Gpu => {
                            gpu = Some(string_of(&l, f, g));
                        },
                        SensorKind::Other => {
                            let ghost ov = others@;
                            others.push((string_of(&l, 0, l.len()), string_of(&l, f, g)));
                            assert(l@.subrange(0, l@.len() as int) =~= l@);
                            assert(pairs_view(others@) =~= pairs_view(ov).push((l@, tok@)));
                        },
                    }
                }
            },
            None => {},
        }
        proof {
            let rest = if e < n {
                readings_from(t@, e + 1)
            } else {
                Seq::empty()
            };
            if e >= n {
                assert(readings_from(t@, n as int) =~= Seq::<(SensorKind, Seq<char>, Seq<char>)>::empty());
            }
            match line_reading(t@, p as int, e as int) {
                Some(x) => {
                    assert(seen =~= before.push(x));
                    assert(before + readings_from(t@, p as int) =~= seen + rest);
                },
                None => {
                    assert(before + readings_from(t@, p as int) =~= seen + rest);
                },
            }
        }
        p = if e < n {
            e + 1
        } else {
            n
        };
    }
    assert(seen + Seq::<(SensorKind, Seq<char>, Seq<char>)>::empty() =~= seen);
    TemperatureReadings { cpu, gpu, others }
}

/// The system summary. Memory is in whole mebibytes.
pub struct SystemInfo {
    pub os_name: Option<String>,
    pub os_version: Option<String>,
    pub kernel_version: Option<String>,
    pub cpu_count: usize,
    pub total_memory_mb: u64,
    pub available_memory_mb: u64,
    pub hostname: Option<String>,
}

impl SystemInfo {
    /// The summary from what the platform reports, memory given in bytes.
    pub fn from_platform(
        os_name: Option<String>,
        os_version: Option<String>,
        kernel_version: Option<String>,
        cpu_count: usize,
        total_memory_bytes: u64,
        available_memory_bytes: u64,
        hostname: Option<String>,
    ) -> (r: SystemInfo)
        ensures
            r.os_name == os_name,
            r.os_version == os_version,
            r.kernel_version == kernel_version,
            r.cpu_count == cpu_count,
            r.total_memory_mb == total_memory_bytes / 1048576,
            r.available_memory_mb == available_memory_bytes / 1048576,
            r.hostname == hostname,
    {
        SystemInfo {
            os_name,
            os_version,
            kernel_version,
            cpu_count,
            total_memory_mb: mib_of_bytes(total_memory_bytes),
            available_memory_mb: mib_of_bytes(available_memory_bytes),
            hostname,
        }
    }
}

/// Total and used memory in whole kibibytes, from byte counts.
pub fn memory_kib(total_bytes: u64, used_bytes: u64) -> (r: (u64, u64))
    ensures
        r.0 == total_bytes / 1024,
        r.1 == used_bytes / 1024,
{
    (kib_of_bytes(total_bytes), kib_of_bytes(used_bytes))
}

} // verus!

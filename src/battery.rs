//! The battery snapshot: a power-summary text gives the charge percentage and
//! a coarse charge state; a power-source registry dump gives cycle count,
//! capacities, voltage, temperature, time estimates and identity strings.

use crate::kv::{entries_view, registry_entries, scan_entries};
use crate::text::{
    all_digits, chars_of, contains_ci, decimal_value, find_ci, fixed_point, is_text,
    lemma_decimal_bound, lemma_run_end, opt_text, parse_digits, parse_fixed, parse_unsigned,
    pow10, run_end, skip_run, string_of, strip, strip_range, unsigned_text, CharClass,
};
use crate::tool::RawOutput;
use crate::units::{
    centi_celsius_of, millivolts_of, minutes_to_seconds, seconds_of_minutes,
    temperature_centi_celsius, voltage_millivolts,
};
use vstd::prelude::*;

verus! {

/// The coarse charge state read from the power summary.
#[derive(Clone, Copy, PartialEq, Eq, Structural, Debug)]
pub enum ChargeState {
    Charging,
    Discharging,
    Full,
    Unknown,
}

/// Known phrases, matched without regard to ASCII case and in this order: drawing from AC
/// power means charging; discharging or battery power means discharging; charged or full
/// means full. Anything else is unknown.
pub open spec fn charge_state_of(t: Seq<char>) -> ChargeState {
    if contains_ci(t, "now drawing from 'ac power'"@) {
        ChargeState::Charging
    } else if contains_ci(t, "discharging"@) || contains_ci(t, "battery power"@) {
        ChargeState::Discharging
    } else if contains_ci(t, "charged"@) || contains_ci(t, "full"@) {
        ChargeState::Full
    } else {
        ChargeState::Unknown
    }
}

/// End of the run of at most three digits at `p`.
pub open spec fn percent_digits_end(t: Seq<char>, p: int) -> int {
    run_end(
        t,
        p,
        if p + 3 < t.len() {
            p + 3
        } else {
            t.len() as int
        },
        CharClass::Digit,
    )
}

/// One to three digits followed by `%` start at `p`.
pub open spec fn percent_at(t: Seq<char>, p: int) -> bool {
    let r = percent_digits_end(t, p);
    0 <= p < r < t.len() && t[r] == '%'
}

pub open spec fn first_percent(t: Seq<char>, p: int) -> Option<int>
    decreases t.len() - p,
{
    if p < 0 || p >= t.len() {
        None
    } else if percent_at(t, p) {
        Some(p)
    } else {
        first_percent(t, p + 1)
    }
}

/// The number of the leftmost `N%` with one to three digits; absent when that number is
/// above 100, which no charge level can be.
pub open spec fn percentage_of(t: Seq<char>) -> Option<nat> {
    match first_percent(t, 0) {
        Some(p) => {
            let v = decimal_value(t.subrange(p, percent_digits_end(t, p)));
            if v <= 100 {
                Some(v)
            } else {
                None
            }
        },
        None => None,
    }
}

/// What the power summary says.
#[derive(Clone, Copy, PartialEq, Eq, Structural, Debug)]
pub struct PowerSummary {
    pub state: ChargeState,
    /// Percent charged, 0 to 100.
    pub percentage: Option<u32>,
}

pub open spec fn power_summary_agrees(r: PowerSummary, t: Seq<char>) -> bool {
    &&& r.state == charge_state_of(t)
    &&& r.percentage is Some <==> percentage_of(t) is Some
    &&& r.percentage is Some ==> r.percentage->0 == percentage_of(t)->0
}

pub fn charge_state(t: &Vec<char>) -> (r: ChargeState)
    ensures
        r == charge_state_of(t@),
{
    if find_ci(t, "now drawing from 'ac power'") {
        ChargeState::Charging
    } else if find_ci(t, "discharging") || find_ci(t, "battery power") {
        ChargeState::Discharging
    } else if find_ci(t, "charged") || find_ci(t, "full") {
        ChargeState::Full
    } else {
        ChargeState::Unknown
    }
}

fn percentage(t: &Vec<char>) -> (r: Option<u32>)
    ensures
        r is Some <==> percentage_of(t@) is Some,
        r is Some ==> r->0 == percentage_of(t@)->0,
{
    let n = t.len();
    let mut p: usize = 0;
    while p < n
        invariant
            n == t@.len(),
            p <= n,
            first_percent(t@, 0) == first_percent(t@, p as int),
        decreases n - p,
    {
        let lim = if n - p > 3 {
            p + 3
        } else {
            n
        };
        let r = skip_run(t, p, lim, CharClass::Digit);
        if p < r && r < n && t[r] == '%' {
            proof {
                lemma_run_end(t@, p as int, lim as int, CharClass::Digit);
                assert(all_digits(t@.subrange(p as int, r as int)));
                lemma_decimal_bound(t@.subrange(p as int, r as int));
                assert(pow10(0) == 1 && pow10(1) == 10 && pow10(2) == 100 && pow10(3) == 1000) by {
                    reveal_with_fuel(pow10, 4);
                }
            }
            match parse_digits(t, p, r, 999) {
                Some(v) => {
                    return if v <= 100 {
                        Some(v as u32)
                    } else {
                        None
                    };
                },
                None => {
                    return None;
                },
            }
        }
        p = p + 1;
    }
    None
}

/// Reads a power summary.
pub fn power_summary(text: &str) -> (r: PowerSummary)
    ensures
        power_summary_agrees(r, text@),
{
    let t = chars_of(text);
    PowerSummary { state: charge_state(&t), percentage: percentage(&t) }
}


/// A registry value read as `u32` (`str::parse`).
pub open spec fn u32_text(v: Seq<char>) -> Option<u32> {
    match unsigned_text(v) {
        Some(n) => if n <= u32::MAX {
            Some(n as u32)
        } else {
            None
        },
        None => None,
    }
}

/// A registry value read as `u64` (`str::parse`).
pub open spec fn u64_text(v: Seq<char>) -> Option<u64> {
    match unsigned_text(v) {
        Some(n) => if n <= u64::MAX {
            Some(n as u64)
        } else {
            None
        },
        None => None,
    }
}

/// A registry value read as `bool` (`str::parse`: exactly `true` or `false`).
pub open spec fn bool_text(v: Seq<char>) -> Option<bool> {
    if v == "true"@ {
        Some(true)
    } else if v == "false"@ {
        Some(false)
    } else {
        None
    }
}

/// A registry value read as a label: the value without surrounding `"`, if anything is left.
pub open spec fn label_text(v: Seq<char>) -> Option<Seq<char>> {
    let s = strip(v, CharClass::Quote);
    if s.len() > 0 {
        Some(s)
    } else {
        None
    }
}

/// What the last entry for which `f` yields something yields.
pub open spec fn last_of<T>(
    es: Seq<(Seq<char>, Seq<char>)>,
    f: spec_fn(Seq<char>, Seq<char>) -> Option<T>,
) -> Option<T>
    decreases es.len(),
{
    if es.len() == 0 {
        None
    } else {
        match f(es.last().0, es.last().1) {
            Some(v) => Some(v),
            None => last_of(es.drop_last(), f),
        }
    }
}

pub proof fn lemma_last_of_push<T>(
    es: Seq<(Seq<char>, Seq<char>)>,
    x: (Seq<char>, Seq<char>),
    f: spec_fn(Seq<char>, Seq<char>) -> Option<T>,
)
    ensures
        last_of(es.push(x), f) == match f(x.0, x.1) {
            Some(v) => Some(v),
            None => last_of(es, f),
        },
{
    assert(es.push(x).drop_last() =~= es);
}

/// An entry under key `a` or `b` whose value reads as `u32`.
pub open spec fn keyed_u32(a: Seq<char>, b: Seq<char>) -> spec_fn(Seq<char>, Seq<char>) -> Option<
    u32,
> {
    |k: Seq<char>, v: Seq<char>|
        if k == a || k == b {
            u32_text(v)
        } else {
            None
        }
}

/// An entry under key `a` whose value reads as `u64`.
pub open spec fn keyed_u64(a: Seq<char>) -> spec_fn(Seq<char>, Seq<char>) -> Option<u64> {
    |k: Seq<char>, v: Seq<char>|
        if k == a {
            u64_text(v)
        } else {
            None
        }
}

/// An entry under key `a` or `b` whose value reads as a label.
pub open spec fn keyed_label(a: Seq<char>, b: Seq<char>) -> spec_fn(Seq<char>, Seq<char>) -> Option<
    Seq<char>,
> {
    |k: Seq<char>, v: Seq<char>|
        if k == a || k == b {
            label_text(v)
        } else {
            None
        }
}

/// `TimeRemaining`, in minutes, as seconds.
pub open spec fn time_remaining_entry() -> spec_fn(Seq<char>, Seq<char>) -> Option<u64> {
    |k: Seq<char>, v: Seq<char>|
        if k == "TimeRemaining"@ && u32_text(v) is Some {
            Some(seconds_of_minutes(u32_text(v)->0 as int) as u64)
        } else {
            None
        }
}

pub open spec fn is_charging_entry() -> spec_fn(Seq<char>, Seq<char>) -> Option<bool> {
    |k: Seq<char>, v: Seq<char>|
        if k == "IsCharging"@ {
            bool_text(v)
        } else {
            None
        }
}

/// `Temperature`, a plain decimal, normalised to hundredths of a degree Celsius.
pub open spec fn temperature_entry() -> spec_fn(Seq<char>, Seq<char>) -> Option<i64> {
    |k: Seq<char>, v: Seq<char>|
        if k == "Temperature"@ && fixed_point(v, 2) is Some {
            Some(centi_celsius_of(fixed_point(v, 2)->0) as i64)
        } else {
            None
        }
}

/// `Voltage`, a plain decimal that is not negative, normalised to millivolts.
pub open spec fn voltage_entry() -> spec_fn(Seq<char>, Seq<char>) -> Option<u64> {
    |k: Seq<char>, v: Seq<char>|
        if k == "Voltage"@ && fixed_point(v, 3) is Some && fixed_point(v, 3)->0 >= 0 {
            Some(millivolts_of(fixed_point(v, 3)->0) as u64)
        } else {
            None
        }
}

pub open spec fn cycle_count_of(es: Seq<(Seq<char>, Seq<char>)>) -> Option<u32> {
    last_of(es, keyed_u32("CycleCount"@, "CycleCount"@))
}

pub open spec fn design_capacity_of(es: Seq<(Seq<char>, Seq<char>)>) -> Option<u32> {
    last_of(es, keyed_u32("DesignCapacity"@, "DesignCapacity"@))
}

pub open spec fn max_capacity_of(es: Seq<(Seq<char>, Seq<char>)>) -> Option<u32> {
    last_of(es, keyed_u32("MaxCapacity"@, "MaxCapacityOperation"@))
}

pub open spec fn current_capacity_of(es: Seq<(Seq<char>, Seq<char>)>) -> Option<u32> {
    last_of(es, keyed_u32("CurrentCapacity"@, "CurrentCapacityOperation"@))
}

pub open spec fn raw_current_capacity_of(es: Seq<(Seq<char>, Seq<char>)>) -> Option<u64> {
    last_of(es, keyed_u64("AppleRawCurrentCapacity"@))
}

pub open spec fn raw_max_capacity_of(es: Seq<(Seq<char>, Seq<char>)>) -> Option<u64> {
    last_of(es, keyed_u64("AppleRawMaxCapacity"@))
}

pub open spec fn time_to_empty_of(es: Seq<(Seq<char>, Seq<char>)>) -> Option<u64> {
    last_of(es, time_remaining_entry())
}

/// The charging flag as it stands after the entries `es`; false until one says otherwise.
pub open spec fn is_charging_of(es: Seq<(Seq<char>, Seq<char>)>) -> bool {
    match last_of(es, is_charging_entry()) {
        Some(b) => b,
        None => false,
    }
}

/// The last readable `AvgTimeToFull` (minutes) decides: in seconds if the charging flag
/// stood true when it was read, absent otherwise.
pub open spec fn time_to_full_of(es: Seq<(Seq<char>, Seq<char>)>) -> Option<u64>
    decreases es.len(),
{
    if es.len() == 0 {
        None
    } else if es.last().0 == "AvgTimeToFull"@ && u32_text(es.last().1) is Some {
        if is_charging_of(es.drop_last()) {
            Some(seconds_of_minutes(u32_text(es.last().1)->0 as int) as u64)
        } else {
            None
        }
    } else {
        time_to_full_of(es.drop_last())
    }
}

pub open spec fn temperature_of(es: Seq<(Seq<char>, Seq<char>)>) -> Option<i64> {
    last_of(es, temperature_entry())
}

pub open spec fn voltage_of(es: Seq<(Seq<char>, Seq<char>)>) -> Option<u64> {
    last_of(es, voltage_entry())
}

pub open spec fn serial_of(es: Seq<(Seq<char>, Seq<char>)>) -> Option<Seq<char>> {
    last_of(es, keyed_label("Serial"@, "BatterySerial"@))
}

pub open spec fn model_of(es: Seq<(Seq<char>, Seq<char>)>) -> Option<Seq<char>> {
    last_of(es, keyed_label("DeviceName"@, "Model"@))
}

pub open spec fn vendor_of(es: Seq<(Seq<char>, Seq<char>)>) -> Option<Seq<char>> {
    last_of(es, keyed_label("Manufacturer"@, "BatteryManufacturer"@))
}

/// A time to full is reported only when an `AvgTimeToFull` entry was read while the
/// charging flag stood true.
pub proof fn lemma_time_to_full_needs_charging(es: Seq<(Seq<char>, Seq<char>)>)
    ensures
        time_to_full_of(es) is Some ==> exists|i: int|
            0 <= i < es.len() && es[i].0 == "AvgTimeToFull"@ && #[trigger] is_charging_of(
                es.take(i),
            ),
    decreases es.len(),
{
    if es.len() > 0 {
        let n = es.len() - 1;
        assert(es.take(n) =~= es.drop_last());
        if es.last().0 == "AvgTimeToFull"@ && u32_text(es.last().1) is Some {
        } else {
            lemma_time_to_full_needs_charging(es.drop_last());
            if time_to_full_of(es) is Some {
                let i = choose|i: int|
                    0 <= i < es.drop_last().len() && es.drop_last()[i].0 == "AvgTimeToFull"@
                        && #[trigger] is_charging_of(es.drop_last().take(i));
                assert(es.drop_last().take(i) =~= es.take(i));
                assert(es[i] == es.drop_last()[i]);
            }
        }
    }
}

/// What the power-source registry says of the battery. Capacities are the registry's raw
/// counters; times are in seconds, the voltage in millivolts, the temperature in hundredths
/// of a degree Celsius.
pub struct RegistryReadings {
    pub vendor: Option<String>,
    pub model: Option<String>,
    pub serial_number: Option<String>,
    pub apple_raw_current_capacity: Option<u64>,
    pub apple_raw_max_capacity: Option<u64>,
    pub design_capacity: Option<u32>,
    pub current_capacity: Option<u32>,
    pub max_capacity: Option<u32>,
    pub time_to_full_seconds: Option<u64>,
    pub time_to_empty_seconds: Option<u64>,
    pub voltage_mv: Option<u64>,
    pub temperature_centi_c: Option<i64>,
    pub cycle_count: Option<u32>,
    pub is_charging: bool,
}

/// Each reading is the one that the entries `es` give.
pub open spec fn readings_agree(r: RegistryReadings, es: Seq<(Seq<char>, Seq<char>)>) -> bool {
    &&& opt_text(r.vendor) == vendor_of(es)
    &&& opt_text(r.model) == model_of(es)
    &&& opt_text(r.serial_number) == serial_of(es)
    &&& r.apple_raw_current_capacity == raw_current_capacity_of(es)
    &&& r.apple_raw_max_capacity == raw_max_capacity_of(es)
    &&& r.design_capacity == design_capacity_of(es)
    &&& r.current_capacity == current_capacity_of(es)
    &&& r.max_capacity == max_capacity_of(es)
    &&& r.time_to_full_seconds == time_to_full_of(es)
    &&& r.time_to_empty_seconds == time_to_empty_of(es)
    &&& r.voltage_mv == voltage_of(es)
    &&& r.temperature_centi_c == temperature_of(es)
    &&& r.cycle_count == cycle_count_of(es)
    &&& r.is_charging == is_charging_of(es)
}

fn read_u32(v: &Vec<char>) -> (r: Option<u32>)
    ensures
        r == u32_text(v@),
{
    assert(v@.subrange(0, v@.len() as int) =~= v@);
    match parse_unsigned(v, 0, v.len(), 0xffff_ffff) {
        Some(n) => Some(n as u32),
        None => None,
    }
}

fn read_u64(v: &Vec<char>) -> (r: Option<u64>)
    ensures
        r == u64_text(v@),
{
    assert(v@.subrange(0, v@.len() as int) =~= v@);
    parse_unsigned(v, 0, v.len(), 0xffff_ffff_ffff_ffff)
}

fn read_bool(v: &Vec<char>) -> (r: Option<bool>)
    ensures
        r == bool_text(v@),
{
    if is_text(v, "true") {
        Some(true)
    } else if is_text(v, "false") {
        Some(false)
    } else {
        None
    }
}

fn read_label(v: &Vec<char>) -> (r: Option<String>)
    ensures
        opt_text(r) == label_text(v@),
{
    assert(v@.subrange(0, v@.len() as int) =~= v@);
    let (a, b) = strip_range(v, 0, v.len(), CharClass::Quote);
    if a < b {
        Some(string_of(v, a, b))
    } else {
        None
    }
}

fn key_in(k: &Vec<char>, a: &str, b: &str) -> (r: bool)
    ensures
        r == (k@ == a@ || k@ == b@),
{
    is_text(k, a) || is_text(k, b)
}

type Entries = Seq<(Seq<char>, Seq<char>)>;

fn next_u32(cur: Option<u32>, k: &Vec<char>, v: &Vec<char>, a: &str, b: &str, Ghost(es): Ghost<Entries>) -> (r: Option<u32>)
    requires
        cur == last_of(es, keyed_u32(a@, b@)),
    ensures
        r == last_of(es.push((k@, v@)), keyed_u32(a@, b@)),
{
    proof {
        lemma_last_of_push(es, (k@, v@), keyed_u32(a@, b@));
    }
    if key_in(k, a, b) {
        if let Some(n) = read_u32(v) {
            return Some(n);
        }
    }
    cur
}

fn next_u64(cur: Option<u64>, k: &Vec<char>, v: &Vec<char>, a: &str, Ghost(es): Ghost<Entries>) -> (r: Option<u64>)
    requires
        cur == last_of(es, keyed_u64(a@)),
    ensures
        r == last_of(es.push((k@, v@)), keyed_u64(a@)),
{
    proof {
        lemma_last_of_push(es, (k@, v@), keyed_u64(a@));
    }
    if is_text(k, a) {
        if let Some(n) = read_u64(v) {
            return Some(n);
        }
    }
    cur
}

fn next_label(cur: Option<String>, k: &Vec<char>, v: &Vec<char>, a: &str, b: &str, Ghost(es): Ghost<Entries>) -> (r: Option<String>)
    requires
        opt_text(cur) == last_of(es, keyed_label(a@, b@)),
    ensures
        opt_text(r) == last_of(es.push((k@, v@)), keyed_label(a@, b@)),
{
    proof {
        lemma_last_of_push(es, (k@, v@), keyed_label(a@, b@));
    }
    if key_in(k, a, b) {
        if let Some(s) = read_label(v) {
            return Some(s);
        }
    }
    cur
}

fn next_time_remaining(cur: Option<u64>, k: &Vec<char>, v: &Vec<char>, Ghost(es): Ghost<Entries>) -> (r: Option<u64>)
    requires
        cur == time_to_empty_of(es),
    ensures
        r == time_to_empty_of(es.push((k@, v@))),
{
    proof {
        lemma_last_of_push(es, (k@, v@), time_remaining_entry());
    }
    if is_text(k, "TimeRemaining") {
        if let Some(n) = read_u32(v) {
            return Some(minutes_to_seconds(n));
        }
    }
    cur
}

fn next_time_to_full(cur: Option<u64>, charging: bool, k: &Vec<char>, v: &Vec<char>, Ghost(es): Ghost<Entries>) -> (r: Option<u64>)
    requires
        cur == time_to_full_of(es),
        charging == is_charging_of(es),
    ensures
        r == time_to_full_of(es.push((k@, v@))),
{
    proof {
        assert(es.push((k@, v@)).drop_last() =~= es);
    }
    if is_text(k, "AvgTimeToFull") {
        if let Some(n) = read_u32(v) {
            return if charging {
                Some(minutes_to_seconds(n))
            } else {
                None
            };
        }
    }
    cur
}

fn next_charging(cur: bool, k: &Vec<char>, v: &Vec<char>, Ghost(es): Ghost<Entries>) -> (r: bool)
    requires
        cur == is_charging_of(es),
    ensures
        r == is_charging_of(es.push((k@, v@))),
{
    proof {
        lemma_last_of_push(es, (k@, v@), is_charging_entry());
    }
    if is_text(k, "IsCharging") {
        if let Some(b) = read_bool(v) {
            return b;
        }
    }
    cur
}

fn next_temperature(cur: Option<i64>, k: &Vec<char>, v: &Vec<char>, Ghost(es): Ghost<Entries>) -> (r: Option<i64>)
    requires
        cur == temperature_of(es),
    ensures
        r == temperature_of(es.push((k@, v@))),
{
    proof {
        lemma_last_of_push(es, (k@, v@), temperature_entry());
    }
    if is_text(k, "Temperature") {
        if let Some(n) = parse_fixed(v, 2) {
            return Some(temperature_centi_celsius(n));
        }
    }
    cur
}

fn next_voltage(cur: Option<u64>, k: &Vec<char>, v: &Vec<char>, Ghost(es): Ghost<Entries>) -> (r: Option<u64>)
    requires
        cur == voltage_of(es),
    ensures
        r == voltage_of(es.push((k@, v@))),
{
    proof {
        lemma_last_of_push(es, (k@, v@), voltage_entry());
    }
    if is_text(k, "Voltage") {
        if let Some(n) = parse_fixed(v, 3) {
            if n >= 0 {
                return Some(voltage_millivolts(n as u64));
            }
        }
    }
    cur
}

/// Takes one more registry entry into the readings.
fn take_entry(r: RegistryReadings, k: &Vec<char>, v: &Vec<char>, Ghost(es): Ghost<Entries>) -> (n: RegistryReadings)
    requires
        readings_agree(r, es),
    ensures
        readings_agree(n, es.push((k@, v@))),
{
    let time_to_full_seconds = next_time_to_full(r.time_to_full_seconds, r.is_charging, k, v, Ghost(es));
    RegistryReadings {
        vendor: next_label(r.vendor, k, v, "Manufacturer", "BatteryManufacturer", Ghost(es)),
        model: next_label(r.model, k, v, "DeviceName", "Model", Ghost(es)),
        serial_number: next_label(r.serial_number, k, v, "Serial", "BatterySerial", Ghost(es)),
        apple_raw_current_capacity: next_u64(r.apple_raw_current_capacity, k, v, "AppleRawCurrentCapacity", Ghost(es)),
        apple_raw_max_capacity: next_u64(r.apple_raw_max_capacity, k, v, "AppleRawMaxCapacity", Ghost(es)),
        design_capacity: next_u32(r.design_capacity, k, v, "DesignCapacity", "DesignCapacity", Ghost(es)),
        current_capacity: next_u32(r.current_capacity, k, v, "CurrentCapacity", "CurrentCapacityOperation", Ghost(es)),
        max_capacity: next_u32(r.max_capacity, k, v, "MaxCapacity", "MaxCapacityOperation", Ghost(es)),
        time_to_full_seconds,
        time_to_empty_seconds: next_time_remaining(r.time_to_empty_seconds, k, v, Ghost(es)),
        voltage_mv: next_voltage(r.voltage_mv, k, v, Ghost(es)),
        temperature_centi_c: next_temperature(r.temperature_centi_c, k, v, Ghost(es)),
        cycle_count: next_u32(r.cycle_count, k, v, "CycleCount", "CycleCount", Ghost(es)),
        is_charging: next_charging(r.is_charging, k, v, Ghost(es)),
    }
}

/// The readings that a sequence of registry entries gives.
pub fn registry_readings(entries: &Vec<(String, String)>) -> (r: RegistryReadings)
    ensures
        readings_agree(r, entries_view(entries@)),
{
    let mut r = RegistryReadings {
        vendor: None,
        model: None,
        serial_number: None,
        apple_raw_current_capacity: None,
        apple_raw_max_capacity: None,
        design_capacity: None,
        current_capacity: None,
        max_capacity: None,
        time_to_full_seconds: None,
        time_to_empty_seconds: None,
        voltage_mv: None,
        temperature_centi_c: None,
        cycle_count: None,
        is_charging: false,
    };
    let ghost es = entries_view(entries@);
    assert(es.take(0) =~= Seq::<(Seq<char>, Seq<char>)>::empty());
    let mut i: usize = 0;
    while i < entries.len()
        invariant
            i <= entries@.len(),
            es == entries_view(entries@),
            readings_agree(r, es.take(i as int)),
        decreases entries@.len() - i,
    {
        let k = chars_of(entries[i].0.as_str());
        let v = chars_of(entries[i].1.as_str());
        assert(es.take(i + 1) =~= es.take(i as int).push((k@, v@)));
        r = take_entry(r, &k, &v, Ghost(es.take(i as int)));
        i = i + 1;
    }
    assert(es.take(i as int) =~= es);
    r
}


/// The readings of a power-source registry dump.
pub fn read_registry(text: &str) -> (r: RegistryReadings)
    ensures
        readings_agree(r, registry_entries(text@)),
{
    let entries = scan_entries(text);
    registry_readings(&entries)
}

/// One battery, its fields grouped by the tool they come from.
pub struct SingleBattery {
    pub power: PowerSummary,
    pub registry: RegistryReadings,
}

/// The batteries found and the time they were read at.
pub struct BatteryInfo {
    pub batteries: Vec<SingleBattery>,
    pub timestamp_unix: u64,
}

#[derive(Clone, Copy, PartialEq, Eq, Structural, Debug)]
pub enum BatteryError {
    /// The power-summary tool could not be run.
    PowerSummaryNotRun,
    /// The power-source registry tool could not be run.
    RegistryNotRun,
}

/// The battery as the power summary `summary` and the registry dump `registry` describe it.
pub open spec fn battery_agrees(b: SingleBattery, summary: Seq<char>, registry: Seq<char>) -> bool {
    &&& power_summary_agrees(b.power, summary)
    &&& readings_agree(b.registry, registry_entries(registry))
}

pub fn single_battery(summary: &str, registry: &str) -> (r: SingleBattery)
    ensures
        battery_agrees(r, summary@, registry@),
{
    SingleBattery { power: power_summary(summary), registry: read_registry(registry) }
}

/// The battery snapshot from the two tools' outputs. Either tool failing to start fails
/// the snapshot (the power summary is looked at first); an exit status that is not success
/// does not, and its output is read as it is.
pub fn battery_info(summary: &RawOutput, registry: &RawOutput, timestamp_unix: u64) -> (r: Result<
    BatteryInfo,
    BatteryError,
>)
    ensures
        !summary.launched ==> r == Err::<BatteryInfo, BatteryError>(BatteryError::PowerSummaryNotRun),
        summary.launched && !registry.launched ==> r == Err::<BatteryInfo, BatteryError>(
            BatteryError::RegistryNotRun,
        ),
        summary.launched && registry.launched ==> r is Ok,
        r matches Ok(info) ==> {
            &&& info.timestamp_unix == timestamp_unix
            &&& info.batteries@.len() == 1
            &&& battery_agrees(info.batteries@[0], summary.stdout@, registry.stdout@)
        },
{
    if !summary.launched {
        return Err(BatteryError::PowerSummaryNotRun);
    }
    if !registry.launched {
        return Err(BatteryError::RegistryNotRun);
    }
    let b = single_battery(summary.stdout.as_str(), registry.stdout.as_str());
    let mut batteries: Vec<SingleBattery> = Vec::new();
    batteries.push(b);
    Ok(BatteryInfo { batteries, timestamp_unix })
}

} // verus!

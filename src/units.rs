//! Conversions from the raw numeric encodings that the tools print to the
//! units the snapshots carry.
//!
//! Temperatures and voltages come in one of two scales and are told apart by
//! magnitude: a reading above 1000 is taken to be in the finer unit. This is
//! a best-effort guess about the registry's encoding, not a decoder of it.
//! Readings may be decimal; they are taken in fixed point, truncated toward
//! zero at the resolution of the finer unit.
//! Capacities are kept as the registry's raw counters (mAh); no conversion
//! is applied to them.

use vstd::prelude::*;

verus! {

/// Readings above this are taken to be in the finer of two units.
pub const SCALE_THRESHOLD: i64 = 1000;

pub open spec fn seconds_of_minutes(m: int) -> int {
    m * 60
}

/// A time estimate in minutes, as seconds.
pub fn minutes_to_seconds(minutes: u32) -> (r: u64)
    ensures
        r == seconds_of_minutes(minutes as int),
{
    (minutes as u64) * 60
}

/// A temperature in hundredths of a degree Celsius, from the raw reading given in
/// hundredths of its own unit (`raw_centi`, truncated toward zero). A raw reading above 1000
/// is already in hundredths of a degree, and its whole part is kept; a smaller one is in
/// degrees. The comparison is made at hundredths.
pub open spec fn centi_celsius_of(raw_centi: int) -> int {
    if raw_centi > 100 * SCALE_THRESHOLD {
        raw_centi / 100
    } else {
        raw_centi
    }
}

pub fn temperature_centi_celsius(raw_centi: i64) -> (r: i64)
    ensures
        r == centi_celsius_of(raw_centi as int),
{
    if raw_centi > 100 * SCALE_THRESHOLD {
        raw_centi / 100
    } else {
        raw_centi
    }
}

/// A voltage in millivolts, from the raw reading given in thousandths of its own unit
/// (`raw_milli`, truncated toward zero). A raw reading above 1000 is already in millivolts,
/// and its whole part is kept; a smaller one is in volts. The comparison is made at
/// thousandths.
pub open spec fn millivolts_of(raw_milli: int) -> int {
    if raw_milli > 1000 * SCALE_THRESHOLD {
        raw_milli / 1000
    } else {
        raw_milli
    }
}

pub fn voltage_millivolts(raw_milli: u64) -> (r: u64)
    ensures
        r == millivolts_of(raw_milli as int),
{
    if raw_milli > 1000 * (SCALE_THRESHOLD as u64) {
        raw_milli / 1000
    } else {
        raw_milli
    }
}

/// Whole kibibytes in a byte count.
pub fn kib_of_bytes(bytes: u64) -> (r: u64)
    ensures
        r == bytes / 1024,
{
    bytes / 1024
}

/// Whole mebibytes in a byte count.
pub fn mib_of_bytes(bytes: u64) -> (r: u64)
    ensures
        r == bytes / 1048576,
{
    bytes / 1048576
}

} // verus!

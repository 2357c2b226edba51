//! Nanoseconds: spans of time, and the units in which they are shown.
use vstd::prelude::*;

verus! {

/// The longest span that 64 bits hold, for every longer one.
pub open spec fn clamped(ns: u128) -> u64 {
    if ns > u64::MAX {
        u64::MAX
    } else {
        ns as u64
    }
}

/// The span in 64 bits, as far as they reach.
pub fn clamp_ns(ns: u128) -> (span: u64)
    ensures
        span == clamped(ns),
{
    if ns > u64::MAX as u128 {
        u64::MAX
    } else {
        ns as u64
    }
}

/// The span from one instant to another, none where the other comes first.
pub open spec fn span(from: u128, to: u128) -> u128 {
    if to > from {
        (to - from) as u128
    } else {
        0
    }
}

/// The span from one instant to another, none where the other comes first.
pub fn span_ns(from: u128, to: u128) -> (ns: u128)
    ensures
        ns == span(from, to),
{
    if to > from {
        to - from
    } else {
        0
    }
}

/// A number as far as 64 signed bits reach.
pub open spec fn saturated(value: int) -> i64 {
    if value > i64::MAX {
        i64::MAX
    } else if value < i64::MIN {
        i64::MIN
    } else {
        value as i64
    }
}

/// A number as far as 64 signed bits reach.
pub fn saturate(value: i128) -> (result: i64)
    ensures
        result == saturated(value as int),
{
    if value > i64::MAX as i128 {
        i64::MAX
    } else if value < i64::MIN as i128 {
        i64::MIN
    } else {
        value as i64
    }
}

/// The unit in which a span is shown.
#[derive(Clone, Copy, Debug, PartialEq, Eq, Structural)]
pub enum DurationUnit {
    Seconds,
    Millis,
    Micros,
}

/// The largest unit of which the span holds at least one, microseconds for the
/// shortest spans.
pub fn duration_unit(ns: u64) -> (unit: DurationUnit)
    ensures
        unit == if ns >= 1_000_000_000 {
            DurationUnit::Seconds
        } else if ns >= 1_000_000 {
            DurationUnit::Millis
        } else {
            DurationUnit::Micros
        },
{
    if ns >= 1_000_000_000 {
        DurationUnit::Seconds
    } else if ns >= 1_000_000 {
        DurationUnit::Millis
    } else {
        DurationUnit::Micros
    }
}

/// A span leads from the earlier instant to the later one, and there is none
/// backwards.
pub proof fn law_spans_lead_to_the_later_instant(from: u128, to: u128)
    ensures
        from <= to ==> from + span(from, to) == to,
        to <= from ==> span(from, to) == 0,
{
}

/// Clamping keeps what 64 bits hold, and gives the longest span for all others.
pub proof fn law_clamping_keeps_what_fits(ns: u128, longer: u128)
    requires
        ns <= longer,
    ensures
        clamped(ns) <= ns,
        clamped(ns) == ns || clamped(ns) == 0xffff_ffff_ffff_ffff,
        ns <= 0xffff_ffff_ffff_ffff ==> clamped(ns) == ns,
        clamped(ns) <= clamped(longer),
{
}

/// Saturating keeps what 64 signed bits hold, and gives the nearest number that
/// they hold for all others.
pub proof fn law_saturation_keeps_what_fits(value: int, greater: int)
    requires
        value <= greater,
    ensures
        i64::MIN <= value <= i64::MAX ==> saturated(value) == value,
        value > i64::MAX ==> saturated(value) == i64::MAX,
        value < i64::MIN ==> saturated(value) == i64::MIN,
        saturated(value) <= saturated(greater),
{
}

} // verus!

//! The units of dates and times, and which of them each function on
//! timestamps and intervals takes.

use vstd::prelude::*;

verus! {
/// A unit of a date or a time.
#[derive(Clone, Copy, Debug, PartialEq, Eq, Structural)]
pub enum DateTimeUnits {
    Epoch,
    Millennium,
    Century,
    Decade,
    Year,
    Quarter,
    Week,
    Month,
    Hour,
    Day,
    DayOfWeek,
    DayOfYear,
    IsoDayOfWeek,
    IsoDayOfYear,
    Minute,
    Second,
    Milliseconds,
    Microseconds,
    Timezone,
    TimezoneHour,
    TimezoneMinute,
}

/// The units that hold the most significant part of a timestamp.
pub open spec fn is_most_significant(unit: DateTimeUnits) -> bool {
    unit is Epoch || unit is Millennium || unit is Century || unit is Decade || unit is Year
}

/// Will extracting this unit from the timestamp include the "most significant bits" of
/// the timestamp?
pub fn most_significant_unit(unit: DateTimeUnits) -> (most_significant: bool)
    ensures
        most_significant == is_most_significant(unit),
{
    match unit {
        DateTimeUnits::Epoch
        | DateTimeUnits::Millennium
        | DateTimeUnits::Century
        | DateTimeUnits::Decade
        | DateTimeUnits::Year => true,
        _ => false,
    }
}

/// The units that name a time zone or a part of one.
pub open spec fn is_timezone_unit(unit: DateTimeUnits) -> bool {
    unit is Timezone || unit is TimezoneHour || unit is TimezoneMinute
}

/// The units that tell a day by its place in a week or a year.
pub open spec fn is_day_in_period(unit: DateTimeUnits) -> bool {
    unit is DayOfWeek || unit is DayOfYear || unit is IsoDayOfWeek || unit is IsoDayOfYear
}

/// Whether a part of an interval can be taken in the given units: in all
/// but weeks, the units of time zones and the days of a week or a year.
pub fn interval_part_supported(units: DateTimeUnits) -> (supported: bool)
    ensures
        supported == !(units is Week || is_timezone_unit(units) || is_day_in_period(units)),
{
    match units {
        DateTimeUnits::Epoch
        | DateTimeUnits::Millennium
        | DateTimeUnits::Century
        | DateTimeUnits::Decade
        | DateTimeUnits::Year
        | DateTimeUnits::Quarter
        | DateTimeUnits::Month
        | DateTimeUnits::Day
        | DateTimeUnits::Hour
        | DateTimeUnits::Minute
        | DateTimeUnits::Second
        | DateTimeUnits::Milliseconds
        | DateTimeUnits::Microseconds => true,
        DateTimeUnits::Week
        | DateTimeUnits::Timezone
        | DateTimeUnits::TimezoneHour
        | DateTimeUnits::TimezoneMinute
        | DateTimeUnits::DayOfWeek
        | DateTimeUnits::DayOfYear
        | DateTimeUnits::IsoDayOfWeek
        | DateTimeUnits::IsoDayOfYear => false,
    }
}

/// Whether a part of a timestamp can be taken in the given units: in all
/// but the units of time zones and the day of the ISO year.
pub fn timestamp_part_supported(units: DateTimeUnits) -> (supported: bool)
    ensures
        supported == !(is_timezone_unit(units) || units is IsoDayOfYear),
{
    match units {
        DateTimeUnits::Timezone
        | DateTimeUnits::TimezoneHour
        | DateTimeUnits::TimezoneMinute
        | DateTimeUnits::IsoDayOfYear => false,
        _ => true,
    }
}

/// Whether a timestamp can be truncated to the given units: to all but
/// the epoch, the units of time zones and the days of a week or a year.
pub fn truncation_supported(units: DateTimeUnits) -> (supported: bool)
    ensures
        supported == !(units is Epoch || is_timezone_unit(units) || is_day_in_period(units)),
{
    match units {
        DateTimeUnits::Epoch
        | DateTimeUnits::Timezone
        | DateTimeUnits::TimezoneHour
        | DateTimeUnits::TimezoneMinute
        | DateTimeUnits::DayOfWeek
        | DateTimeUnits::DayOfYear
        | DateTimeUnits::IsoDayOfWeek
        | DateTimeUnits::IsoDayOfYear => false,
        _ => true,
    }
}
} // verus!

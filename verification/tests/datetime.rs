use async_operators::datetime::{
    interval_part_supported, most_significant_unit, timestamp_part_supported,
    truncation_supported, DateTimeUnits,
};
use async_operators::stats::{col_values, err_count, ColumnRange, Values};

const ALL: [DateTimeUnits; 21] = [
    DateTimeUnits::Epoch,
    DateTimeUnits::Millennium,
    DateTimeUnits::Century,
    DateTimeUnits::Decade,
    DateTimeUnits::Year,
    DateTimeUnits::Quarter,
    DateTimeUnits::Week,
    DateTimeUnits::Month,
    DateTimeUnits::Hour,
    DateTimeUnits::Day,
    DateTimeUnits::DayOfWeek,
    DateTimeUnits::DayOfYear,
    DateTimeUnits::IsoDayOfWeek,
    DateTimeUnits::IsoDayOfYear,
    DateTimeUnits::Minute,
    DateTimeUnits::Second,
    DateTimeUnits::Milliseconds,
    DateTimeUnits::Microseconds,
    DateTimeUnits::Timezone,
    DateTimeUnits::TimezoneHour,
    DateTimeUnits::TimezoneMinute,
];

fn those(accepts: fn(DateTimeUnits) -> bool) -> Vec<DateTimeUnits> {
    ALL.iter().copied().filter(|unit| accepts(*unit)).collect()
}

#[test]
fn most_significant_units_are_the_year_and_above() {
    assert_eq!(
        those(most_significant_unit),
        vec![
            DateTimeUnits::Epoch,
            DateTimeUnits::Millennium,
            DateTimeUnits::Century,
            DateTimeUnits::Decade,
            DateTimeUnits::Year,
        ]
    );
}

#[test]
fn interval_parts() {
    assert_eq!(
        those(|unit| !interval_part_supported(unit)),
        vec![
            DateTimeUnits::Week,
            DateTimeUnits::DayOfWeek,
            DateTimeUnits::DayOfYear,
            DateTimeUnits::IsoDayOfWeek,
            DateTimeUnits::IsoDayOfYear,
            DateTimeUnits::Timezone,
            DateTimeUnits::TimezoneHour,
            DateTimeUnits::TimezoneMinute,
        ]
    );
}

#[test]
fn timestamp_parts() {
    assert_eq!(
        those(|unit| !timestamp_part_supported(unit)),
        vec![
            DateTimeUnits::IsoDayOfYear,
            DateTimeUnits::Timezone,
            DateTimeUnits::TimezoneHour,
            DateTimeUnits::TimezoneMinute,
        ]
    );
}

#[test]
fn truncations() {
    assert_eq!(
        those(|unit| !truncation_supported(unit)),
        vec![
            DateTimeUnits::Epoch,
            DateTimeUnits::DayOfWeek,
            DateTimeUnits::DayOfYear,
            DateTimeUnits::IsoDayOfWeek,
            DateTimeUnits::IsoDayOfYear,
            DateTimeUnits::Timezone,
            DateTimeUnits::TimezoneHour,
            DateTimeUnits::TimezoneMinute,
        ]
    );
}

#[test]
fn column_of_nulls_only_holds_no_value() {
    assert_eq!(
        col_values(Some(3), 3, Some(1), Some(2)),
        ColumnRange { values: Values::Nothing, nulls: true }
    );
    // An empty part: no rows, no nulls, no values.
    assert_eq!(
        col_values::<u8>(Some(0), 0, None, None),
        ColumnRange { values: Values::Nothing, nulls: false }
    );
}

#[test]
fn column_values_lie_between_the_bounds_if_both_are_known() {
    assert_eq!(
        col_values(Some(3), 1, Some(1), Some(9)),
        ColumnRange { values: Values::Between(1, 9), nulls: true }
    );
    assert_eq!(
        col_values(None, 0, Some(1), Some(9)),
        ColumnRange { values: Values::Between(1, 9), nulls: false }
    );
    assert_eq!(
        col_values(Some(3), 0, Some(1), None),
        ColumnRange { values: Values::All, nulls: false }
    );
    assert_eq!(
        col_values(Some(3), 2, None, Some(1)),
        ColumnRange { values: Values::All, nulls: true }
    );
    // Without the number of rows, nulls only cannot be told.
    assert_eq!(
        col_values::<u8>(None, 3, None, None),
        ColumnRange { values: Values::All, nulls: true }
    );
}

#[test]
fn errors_are_the_rows_that_are_not_ok() {
    assert_eq!(err_count(10, Some(7)), Some(3));
    assert_eq!(err_count(10, Some(10)), Some(0));
    assert_eq!(err_count(0, Some(0)), Some(0));
    assert_eq!(err_count(10, None), None);
}

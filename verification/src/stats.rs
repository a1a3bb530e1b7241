//! What the statistics of a part of a relation tell about the values of a column.

use vstd::prelude::*;

verus! {
/// The values other than null that a column may hold.
#[derive(Debug, PartialEq, Eq)]
pub enum Values<D> {
    /// No value.
    Nothing,
    /// The values from the first to the second.
    Between(D, D),
    /// Any value.
    All,
}

/// What a column may hold: its values, and whether null is among them.
#[derive(Debug, PartialEq, Eq)]
pub struct ColumnRange<D> {
    pub values: Values<D>,
    pub nulls: bool,
}

/// What a column may hold, by the statistics of a part: the number of rows
/// of the part if it is known, the number of nulls in the column, and the
/// least and the greatest value of the column if they are known.
///
/// A column of nulls only holds no value. Otherwise its values lie between
/// the least and the greatest if both are known, and may be any if not.
/// Null is among them if it has been counted.
pub fn col_values<D>(
    total_count: Option<usize>,
    null_count: usize,
    min: Option<D>,
    max: Option<D>,
) -> (range: ColumnRange<D>)
    ensures
        range.nulls == (null_count > 0),
        range.values == (if total_count == Some(null_count) {
            Values::Nothing
        } else if min is Some && max is Some {
            Values::Between(min->0, max->0)
        } else {
            Values::All
        }),
{
    let all_null = match total_count {
        Some(total_count) => total_count == null_count,
        None => false,
    };
    let values = if all_null {
        Values::Nothing
    } else {
        match (min, max) {
            (Some(min), Some(max)) => Values::Between(min, max),
            _ => Values::All,
        }
    };
    ColumnRange { values, nulls: null_count > 0 }
}

/// The number of rows of a part that hold an error: those of its rows
/// that are not ok.
pub fn err_count(num_results: usize, num_oks: Option<usize>) -> (errors: Option<usize>)
    requires
        num_oks matches Some(oks) ==> oks <= num_results,
    ensures
        errors == (match num_oks {
            Some(oks) => Some((num_results - oks) as usize),
            None => None,
        }),
{
    match num_oks {
        Some(num_oks) => Some(num_results - num_oks),
        None => None,
    }
}
} // verus!

//! Reading the sealed entries of a collection of a durable store.
//!
//! Sealed entries are those with times before the collection's upper
//! frontier. They are read at the latest sealed time.

use crate::frontier::{
    time_elements, times_frontier_less_equal, times_less_equal, times_to_vec,
};
use crate::stash::{Diff, InternalStashError, StashError, Timestamp};
use timely::progress::Antichain;
use vstd::prelude::*;
use vstd::string::StringExecFns;

verus! {
/// The character of a decimal digit.
pub open spec fn digit(d: int) -> char {
    if d == 0 {
        '0'
    } else if d == 1 {
        '1'
    } else if d == 2 {
        '2'
    } else if d == 3 {
        '3'
    } else if d == 4 {
        '4'
    } else if d == 5 {
        '5'
    } else if d == 6 {
        '6'
    } else if d == 7 {
        '7'
    } else if d == 8 {
        '8'
    } else {
        '9'
    }
}

/// The decimal digits of a natural number, without leading zeros.
pub open spec fn digits(number: nat) -> Seq<char>
    decreases number,
{
    if number < 10 {
        seq![digit(number as int)]
    } else {
        digits(number / 10).push(digit(number as int % 10))
    }
}

/// The decimal digits of a number, with a minus sign before them where it is negative.
pub open spec fn decimal_digits(number: i64) -> Seq<char> {
    if number < 0 {
        seq!['-'] + digits((0 - number) as nat)
    } else {
        digits(number as nat)
    }
}

/// `i64::to_string`: the number written out in decimal, with a minus sign
/// where it is negative and without leading zeros.
#[verifier::external_body]
fn time_to_string(number: i64) -> (text: String)
    ensures
        text@ == decimal_digits(number),
{
    number.to_string()
}

/// The elements written out in decimal, with a comma and a blank between each two.
pub open spec fn joined(elements: Seq<i64>) -> Seq<char>
    decreases elements.len(),
{
    if elements.len() == 0 {
        Seq::empty()
    } else if elements.len() == 1 {
        decimal_digits(elements[0])
    } else {
        joined(elements.drop_last()) + ", "@ + decimal_digits(elements.last())
    }
}

/// A frontier written out: its elements in braces.
pub open spec fn formatted(elements: Seq<i64>) -> Seq<char> {
    "{"@ + joined(elements) + "}"@
}

/// Writes out a frontier: its elements in braces, with a comma and a blank between each two.
pub fn format_antichain(elements: &Vec<i64>) -> (text: String)
    ensures
        text@ == formatted(elements@),
{
    let mut text = String::from_str("{");
    let mut i: usize = 0;
    while i < elements.len()
        invariant
            i <= elements.len(),
            text@ == "{"@ + joined(elements@.take(i as int)),
        decreases elements.len() - i,
    {
        if i > 0 {
            text.append(", ");
        }
        let element = time_to_string(elements[i]);
        text.append(element.as_str());
        proof {
            let sofar = elements@.take(i as int);
            let next = elements@.take(i + 1);
            assert(next.drop_last() =~= sofar);
        }
        i += 1;
    }
    proof {
        assert(elements@.take(i as int) =~= elements@);
    }
    text.append("}");
    text
}

/// What is said of a collection that cannot be read because its since
/// frontier is not before its upper frontier.
pub open spec fn since_upper_message(since: Seq<i64>, upper: Seq<i64>) -> Seq<char> {
    "collection since "@ + formatted(since) + " is not less than upper "@ + formatted(upper)
}

/// The most recent time at which sealed entries can be read, for frontiers
/// with the given elements: the time right before the upper frontier, or
/// the greatest time of all where the upper frontier is empty.
pub open spec fn peek_time(upper: Seq<i64>) -> Option<Timestamp> {
    if upper.len() == 0 {
        Some(i64::MAX)
    } else if upper.last() > i64::MIN {
        Some((upper.last() - 1) as i64)
    } else {
        None
    }
}

/// Returns the most recent timestamp at which sealed entries can be read.
///
/// There is none if the upper frontier is not beyond the since frontier,
/// and none if no time is before the upper frontier.
pub fn peek_timestamp(since: &Antichain<i64>, upper: &Antichain<i64>) -> (result: Result<
    Timestamp,
    StashError,
>)
    ensures
        times_less_equal(time_elements(*upper), time_elements(*since)) ==> (result matches Err(
            error,
        ) && error.inner matches InternalStashError::PeekSinceUpper(text) && text@
            == since_upper_message(time_elements(*since), time_elements(*upper))),
        !times_less_equal(time_elements(*upper), time_elements(*since)) ==> match peek_time(
            time_elements(*upper),
        ) {
            Some(time) => result == Ok::<Timestamp, StashError>(time),
            None => result matches Err(error) && error.says(
                "could not determine peek timestamp"@,
            ),
        },
{
    let elements = times_to_vec(upper);
    if times_frontier_less_equal(upper, since) {
        let mut text = String::from_str("collection since ");
        let since_text = format_antichain(&times_to_vec(since));
        text.append(since_text.as_str());
        text.append(" is not less than upper ");
        let upper_text = format_antichain(&elements);
        text.append(upper_text.as_str());
        return Err(StashError { inner: InternalStashError::PeekSinceUpper(text) });
    }
    if elements.len() == 0 {
        Ok(i64::MAX)
    } else {
        let ts = elements[elements.len() - 1];
        match ts.checked_sub(1) {
            Some(ts) => Ok(ts),
            None => Err(StashError::other("could not determine peek timestamp")),
        }
    }
}

/// The values of rows of bytes, each with its multiplicity.
pub open spec fn row_values(rows: Seq<(Vec<u8>, Diff)>) -> Seq<(Seq<u8>, Diff)> {
    Seq::new(rows.len(), |i: int| (rows[i].0@, rows[i].1))
}

/// The sum of the magnitudes of the multiplicities of `rows`.
pub open spec fn magnitude(rows: Seq<(Seq<u8>, Diff)>) -> int
    decreases rows.len(),
{
    if rows.len() == 0 {
        0
    } else {
        magnitude(rows.drop_last()) + (if rows.last().1 < 0 {
            -rows.last().1
        } else {
            rows.last().1 as int
        })
    }
}

/// Whether `a` comes before `b` in the order of sequences of bytes: at the
/// first place where they differ `a` has the lesser byte, or `a` ends there
/// and `b` goes on.
pub open spec fn bytes_before(a: Seq<u8>, b: Seq<u8>) -> bool
    decreases a.len(),
{
    if b.len() == 0 {
        false
    } else if a.len() == 0 {
        true
    } else if a[0] != b[0] {
        a[0] < b[0]
    } else {
        bytes_before(a.skip(1), b.skip(1))
    }
}

/// The sum of the multiplicities of the rows of `rows` that hold `value`.
pub open spec fn weight(rows: Seq<(Seq<u8>, Diff)>, value: Seq<u8>) -> int
    decreases rows.len(),
{
    if rows.len() == 0 {
        0
    } else {
        weight(rows.drop_last(), value) + (if rows.last().0 == value {
            rows.last().1 as int
        } else {
            0
        })
    }
}

/// Whether `consolidated` holds the rows of `rows` sorted by their values,
/// with the rows of one value made into one row with the sum of their
/// multiplicities, and without the rows whose multiplicities sum to zero.
pub open spec fn consolidates(
    consolidated: Seq<(Seq<u8>, Diff)>,
    rows: Seq<(Seq<u8>, Diff)>,
) -> bool {
    &&& forall|i: int, j: int|
        #![trigger consolidated[i], consolidated[j]]
        0 <= i < j < consolidated.len() ==> bytes_before(consolidated[i].0, consolidated[j].0)
    &&& forall|i: int| 0 <= i < consolidated.len() ==> (#[trigger] consolidated[i]).1 != 0
    &&& forall|value: Seq<u8>| #[trigger] weight(consolidated, value) == weight(rows, value)
}

/// `differential_dataflow::consolidation::consolidate`: sorts the rows by
/// their values and makes the rows of one value into one row with the sum
/// of their multiplicities, unless that sum is zero. The sums must not
/// overflow.
#[verifier::external_body]
fn consolidate_rows(rows: &mut Vec<(Vec<u8>, Diff)>)
    requires
        magnitude(row_values(old(rows)@)) <= i64::MAX,
    ensures
        consolidates(row_values(final(rows)@), row_values(old(rows)@)),
{
    differential_dataflow::consolidation::consolidate(rows)
}

/// What consolidated rows for one key say of the key's value: nothing
/// where there is no row, the value where there is one row for it once, and
/// no answer otherwise.
pub open spec fn one_value(rows: Seq<(Seq<u8>, Diff)>) -> Result<Option<Seq<u8>>, ()> {
    if rows.len() == 0 {
        Ok(None)
    } else if rows.len() == 1 {
        if rows[0].1 == 1 {
            Ok(Some(rows[0].0))
        } else if rows[0].1 == 0 {
            Ok(None)
        } else {
            Err(())
        }
    } else {
        Err(())
    }
}

/// Whether `result` answers as `wanted` says, with the error for more than one value.
pub open spec fn answers(
    wanted: Result<Option<Seq<u8>>, ()>,
    result: Result<Option<Vec<u8>>, StashError>,
) -> bool {
    match wanted {
        Ok(Some(value)) => result matches Ok(Some(found)) && found@ == value,
        Ok(None) => result matches Ok(None),
        Err(_) => result matches Err(error) && error.says("multiple values unexpected"@),
    }
}

/// Returns the value that consolidated rows for one key give, erroring if
/// there is more than one row or the multiplicity is not 1.
pub fn key_value_of(rows: Vec<(Vec<u8>, Diff)>) -> (result: Result<Option<Vec<u8>>, StashError>)
    ensures
        answers(one_value(row_values(rows@)), result),
{
    let mut rows = rows;
    if rows.len() == 0 {
        Ok(None)
    } else if rows.len() == 1 {
        let (v, diff) = rows.pop().unwrap();
        if diff == 1 {
            Ok(Some(v))
        } else if diff == 0 {
            Ok(None)
        } else {
            Err(StashError::other("multiple values unexpected"))
        }
    } else {
        Err(StashError::other("multiple values unexpected"))
    }
}

/// The rows of `entries` that are sealed at `timestamp`, without their times.
pub open spec fn sealed_rows(entries: Seq<(Vec<u8>, Timestamp, Diff)>, timestamp: Timestamp) -> Seq<
    (Vec<u8>, Diff),
>
    decreases entries.len(),
{
    if entries.len() == 0 {
        Seq::empty()
    } else if entries.last().1 <= timestamp {
        sealed_rows(entries.drop_last(), timestamp).push((entries.last().0, entries.last().2))
    } else {
        sealed_rows(entries.drop_last(), timestamp)
    }
}

/// Returns the sealed value among the entries of one key, as of
/// `timestamp`, erroring if there is more than one entry for the key or its
/// multiplicity is not 1.
pub fn peek_key_one(entries: Vec<(Vec<u8>, Timestamp, Diff)>, timestamp: Timestamp) -> (result:
    Result<Option<Vec<u8>>, StashError>)
    requires
        magnitude(row_values(sealed_rows(entries@, timestamp))) <= i64::MAX,
    ensures
        exists|rows: Seq<(Seq<u8>, Diff)>| #[trigger]
            consolidates(rows, row_values(sealed_rows(entries@, timestamp))) && answers(
                one_value(rows),
                result,
            ),
{
    let ghost all = entries@;
    let mut rows: Vec<(Vec<u8>, Diff)> = Vec::new();
    for entry in walk: entries
        invariant
            walk.seq() == all,
            rows@ == sealed_rows(all.take(walk.index() as int), timestamp),
    {
        let ghost at = walk.index() as int;
        let (v, data_ts, diff) = entry;
        proof {
            assert(all.take(at + 1).drop_last() =~= all.take(at));
        }
        if data_ts <= timestamp {
            rows.push((v, diff));
        }
    }
    proof {
        assert(all.take(all.len() as int) =~= all);
    }
    consolidate_rows(&mut rows);
    let ghost consolidated = row_values(rows@);
    let result = key_value_of(rows);
    assert(consolidates(consolidated, row_values(sealed_rows(entries@, timestamp))));
    result
}

/// Rows of keys and values as sequences of bytes, each with its multiplicity.
pub open spec fn update_values(rows: Seq<(Vec<u8>, Vec<u8>, Diff)>) -> Seq<(Seq<u8>, Seq<u8>, Diff)> {
    Seq::new(rows.len(), |i: int| (rows[i].0@, rows[i].1@, rows[i].2))
}

/// The sum of the magnitudes of the multiplicities of `rows`.
pub open spec fn update_magnitude(rows: Seq<(Seq<u8>, Seq<u8>, Diff)>) -> int
    decreases rows.len(),
{
    if rows.len() == 0 {
        0
    } else {
        update_magnitude(rows.drop_last()) + (if rows.last().2 < 0 {
            -rows.last().2
        } else {
            rows.last().2 as int
        })
    }
}

/// The sum of the multiplicities of the rows of `rows` that hold `key` and `value`.
pub open spec fn update_weight(
    rows: Seq<(Seq<u8>, Seq<u8>, Diff)>,
    key: Seq<u8>,
    value: Seq<u8>,
) -> int
    decreases rows.len(),
{
    if rows.len() == 0 {
        0
    } else {
        update_weight(rows.drop_last(), key, value) + (if rows.last().0 == key && rows.last().1
            == value {
            rows.last().2 as int
        } else {
            0
        })
    }
}

/// Whether `consolidated` holds the rows of `rows` sorted by their keys
/// and, for one key, by their values, with the rows of one key and value
/// made into one row with the sum of their multiplicities, and without the
/// rows whose multiplicities sum to zero.
pub open spec fn consolidates_updates(
    consolidated: Seq<(Seq<u8>, Seq<u8>, Diff)>,
    rows: Seq<(Seq<u8>, Seq<u8>, Diff)>,
) -> bool {
    &&& forall|i: int, j: int|
        #![trigger consolidated[i], consolidated[j]]
        0 <= i < j < consolidated.len() ==> bytes_before(consolidated[i].0, consolidated[j].0)
            || (consolidated[i].0 == consolidated[j].0 && bytes_before(
            consolidated[i].1,
            consolidated[j].1,
        ))
    &&& forall|i: int| 0 <= i < consolidated.len() ==> (#[trigger] consolidated[i]).2 != 0
    &&& forall|key: Seq<u8>, value: Seq<u8>| #[trigger]
        update_weight(consolidated, key, value) == update_weight(rows, key, value)
}

/// `differential_dataflow::consolidation::consolidate_updates`: sorts the
/// rows by their keys and values and makes the rows of one key and value
/// into one row with the sum of their multiplicities, unless that sum is
/// zero. The sums must not overflow.
#[verifier::external_body]
fn consolidate_update_rows(rows: &mut Vec<(Vec<u8>, Vec<u8>, Diff)>)
    requires
        update_magnitude(update_values(old(rows)@)) <= i64::MAX,
    ensures
        consolidates_updates(update_values(final(rows)@), update_values(old(rows)@)),
{
    differential_dataflow::consolidation::consolidate_updates(rows)
}

/// The rows of `entries` that are sealed at `timestamp`, without their times.
pub open spec fn sealed_updates(
    entries: Seq<((Vec<u8>, Vec<u8>), Timestamp, Diff)>,
    timestamp: Timestamp,
) -> Seq<(Vec<u8>, Vec<u8>, Diff)>
    decreases entries.len(),
{
    if entries.len() == 0 {
        Seq::empty()
    } else if entries.last().1 <= timestamp {
        sealed_updates(entries.drop_last(), timestamp).push(
            (entries.last().0.0, entries.last().0.1, entries.last().2),
        )
    } else {
        sealed_updates(entries.drop_last(), timestamp)
    }
}

/// Returns the current value of the entries that are sealed at
/// `timestamp`, in `(key, value)` order and consolidated.
pub fn peek(entries: Vec<((Vec<u8>, Vec<u8>), Timestamp, Diff)>, timestamp: Timestamp) -> (rows:
    Vec<(Vec<u8>, Vec<u8>, Diff)>)
    requires
        update_magnitude(update_values(sealed_updates(entries@, timestamp))) <= i64::MAX,
    ensures
        consolidates_updates(
            update_values(rows@),
            update_values(sealed_updates(entries@, timestamp)),
        ),
{
    let ghost all = entries@;
    let mut rows: Vec<(Vec<u8>, Vec<u8>, Diff)> = Vec::new();
    for entry in walk: entries
        invariant
            walk.seq() == all,
            rows@ == sealed_updates(all.take(walk.index() as int), timestamp),
    {
        let ghost at = walk.index() as int;
        let ((k, v), data_ts, diff) = entry;
        proof {
            assert(all.take(at + 1).drop_last() =~= all.take(at));
        }
        if data_ts <= timestamp {
            rows.push((k, v, diff));
        }
    }
    proof {
        assert(all.take(all.len() as int) =~= all);
    }
    consolidate_update_rows(&mut rows);
    rows
}

/// Whether two vectors hold the same bytes.
fn same_bytes(a: &Vec<u8>, b: &Vec<u8>) -> (same: bool)
    ensures
        same == (a@ == b@),
{
    if a.len() != b.len() {
        return false;
    }
    let mut i: usize = 0;
    while i < a.len()
        invariant
            i <= a.len(),
            a.len() == b.len(),
            forall|j: int| 0 <= j < i ==> a@[j] == b@[j],
        decreases a.len() - i,
    {
        if a[i] != b[i] {
            return false;
        }
        i += 1;
    }
    assert(a@ =~= b@);
    true
}

/// Whether row `i` stands in the way of reading `rows` as one value for
/// each key: it is there another number of times than once, or an earlier
/// row has its key.
pub open spec fn stands_in_the_way(rows: Seq<(Seq<u8>, Seq<u8>, Diff)>, i: int) -> bool {
    rows[i].2 != 1 || exists|j: int| 0 <= j < i && #[trigger] rows[j].0 == rows[i].0
}

/// The keys of `rows` with their values.
pub open spec fn pairs_of(rows: Seq<(Seq<u8>, Seq<u8>, Diff)>) -> Seq<(Seq<u8>, Seq<u8>)> {
    Seq::new(rows.len(), |i: int| (rows[i].0, rows[i].1))
}

/// Pairs of keys and values as sequences of bytes.
pub open spec fn pair_values(pairs: Seq<(Vec<u8>, Vec<u8>)>) -> Seq<(Seq<u8>, Seq<u8>)> {
    Seq::new(pairs.len(), |i: int| (pairs[i].0@, pairs[i].1@))
}

/// Returns the k,v pairs of the given sealed entries, in their order,
/// erroring if there is more than one entry for a given key or the
/// multiplicity is not 1 for each key.
///
/// The error is that of the first row that stands in the way. Without an
/// error no key occurs twice among the pairs.
pub fn peek_one(rows: Vec<(Vec<u8>, Vec<u8>, Diff)>) -> (result: Result<
    Vec<(Vec<u8>, Vec<u8>)>,
    StashError,
>)
    ensures
        (forall|i: int| 0 <= i < rows.len() ==> !stands_in_the_way(update_values(rows@), i)) ==> (
        result matches Ok(found) && pair_values(found@) == pairs_of(update_values(rows@))),
        forall|i: int|
            #![trigger stands_in_the_way(update_values(rows@), i)]
            0 <= i < rows.len() && stands_in_the_way(update_values(rows@), i) && (forall|j: int|
                0 <= j < i ==> !stands_in_the_way(update_values(rows@), j)) ==> (
            result matches Err(error) && error.says(
                if rows[i].2 != 1 {
                    "unexpected peek multiplicity"@
                } else {
                    "duplicate peek keys"@
                },
            )),
{
    let ghost all = update_values(rows@);
    let mut found: Vec<(Vec<u8>, Vec<u8>)> = Vec::new();
    for row in walk: rows
        invariant
            all == update_values(walk.seq()),
            walk.seq() == rows@,
            found.len() == walk.index(),
            forall|j: int| 0 <= j < walk.index() ==> !stands_in_the_way(all, j),
            pair_values(found@) == pairs_of(all.take(walk.index() as int)),
    {
        let ghost at = walk.index() as int;
        let (k, v, diff) = row;
        assert(all[at] == (k@, v@, diff));
        if diff != 1 {
            assert(stands_in_the_way(all, at));
            return Err(StashError::other("unexpected peek multiplicity"));
        }
        let mut j: usize = 0;
        while j < found.len()
            invariant
                j <= found.len(),
                found.len() == at,
                0 <= at < all.len(),
                all == update_values(rows@),
                all[at].0 == k@,
                pair_values(found@) == pairs_of(all.take(at)),
                forall|m: int| 0 <= m < j ==> #[trigger] all[m].0 != all[at].0,
                forall|m: int| 0 <= m < at ==> !stands_in_the_way(all, m),
                all[at].2 == 1,
            decreases found.len() - j,
        {
            proof {
                let here = j as int;
                assert(pair_values(found@)[here] == (found@[here].0@, found@[here].1@));
                assert(pairs_of(all.take(at))[here] == (all[here].0, all[here].1));
            }
            if same_bytes(&found[j].0, &k) {
                assert(all[j as int].0 == all[at].0);
                assert(stands_in_the_way(all, at));
                return Err(StashError::other("duplicate peek keys"));
            }
            j += 1;
        }
        assert(!stands_in_the_way(all, at));
        let ghost before = found@;
        found.push((k, v));
        proof {
            assert(pair_values(found@) =~= pair_values(before).push((k@, v@)));
            assert(pairs_of(all.take(at + 1)) =~= pairs_of(all.take(at)).push((k@, v@)));
        }
    }
    proof {
        assert(all.take(all.len() as int) =~= all);
    }
    Ok(found)
}

/// The keys of what [`peek_one`] gives differ from each other.
pub proof fn lemma_peek_one_keys_differ(rows: Seq<(Seq<u8>, Seq<u8>, Diff)>)
    requires
        forall|i: int| 0 <= i < rows.len() ==> !stands_in_the_way(rows, i),
    ensures
        forall|i: int, j: int|
            0 <= i < j < rows.len() ==> (#[trigger] pairs_of(rows)[i]).0 != (
            #[trigger] pairs_of(rows)[j]).0,
{
    assert forall|i: int, j: int| 0 <= i < j < rows.len() implies (#[trigger] pairs_of(rows)[i]).0
        != (#[trigger] pairs_of(rows)[j]).0 by {
        assert(!stands_in_the_way(rows, j));
        if rows[i].0 == rows[j].0 {
            assert(0 <= i < j && rows[i].0 == rows[j].0);
        }
    }
}

} // verus!

//! Batches of changes to append to a collection of a durable store.

use crate::frontier::{time_elements, times_from_elem, times_to_vec};
use crate::stash::{Diff, Id, StashCollection, StashError, Timestamp, TypedCollection};
use timely::progress::Antichain;
use vstd::prelude::*;

verus! {
/// The changes to append to a collection in one step, from its upper
/// frontier `lower` to the new upper frontier `upper`.
#[derive(Debug)]
pub struct AppendBatch {
    pub collection_id: Id,
    pub lower: Antichain<Timestamp>,
    pub upper: Antichain<Timestamp>,
    pub timestamp: Timestamp,
    pub entries: Vec<((Vec<u8>, Vec<u8>), Timestamp, Diff)>,
}

impl<K, V> StashCollection<K, V> {
    /// Create a new AppendBatch for this collection from its current upper.
    ///
    /// The batch is at the one time that the upper frontier holds, and
    /// moves the upper frontier to the next time. There is no batch if the
    /// frontier does not hold one time, or if that time has no next.
    pub fn make_batch(&self, lower: Antichain<Timestamp>) -> (result: Result<AppendBatch, StashError>)
        ensures
            time_elements(lower).len() != 1 ==> (result matches Err(error) && error.says(
                "cannot determine batch timestamp"@,
            )),
            time_elements(lower).len() == 1 && time_elements(lower)[0] == i64::MAX ==> (
            result matches Err(error) && error.says("cannot determine new upper"@)),
            time_elements(lower).len() == 1 && time_elements(lower)[0] < i64::MAX ==> (
            result matches Ok(batch) && batch.collection_id == self.spec_id() && batch.lower
                == lower && time_elements(batch.upper) == seq![
                (time_elements(lower)[0] + 1) as i64,
            ] && batch.timestamp == time_elements(lower)[0] && batch.entries@.len() == 0),
    {
        let elements = times_to_vec(&lower);
        if elements.len() != 1 {
            return Err(StashError::other("cannot determine batch timestamp"));
        }
        let timestamp = elements[0];
        let upper = match timestamp.checked_add(1) {
            Some(ts) => times_from_elem(ts),
            None => {
                return Err(StashError::other("cannot determine new upper"));
            },
        };
        Ok(AppendBatch { collection_id: self.id(), lower, upper, timestamp, entries: Vec::new() })
    }

    /// Adds to the batch a change of the entry with the given encoded key
    /// and value, at the time of the batch.
    pub fn append_to_batch(&self, batch: &mut AppendBatch, key: Vec<u8>, value: Vec<u8>, diff: Diff)
        ensures
            final(batch).entries@ == old(batch).entries@.push(
                ((key, value), old(batch).timestamp, diff),
            ),
            final(batch).collection_id == old(batch).collection_id,
            final(batch).lower == old(batch).lower,
            final(batch).upper == old(batch).upper,
            final(batch).timestamp == old(batch).timestamp,
    {
        let timestamp = batch.timestamp;
        batch.entries.push(((key, value), timestamp, diff));
    }
}

/// The changes that set a key to a value: the retraction of the value it
/// had, if it had one, then the addition of the new value.
pub open spec fn upsert_changes(key: Seq<u8>, prev: Option<Seq<u8>>, value: Seq<u8>) -> Seq<
    (Seq<u8>, Seq<u8>, Diff),
> {
    (match prev {
        Some(prev) => seq![(key, prev, -1i64)],
        None => Seq::empty(),
    }).push((key, value, 1i64))
}

/// The changes of `entries`, each with its key and value as sequences of bytes.
pub open spec fn changes_view(entries: Seq<((Vec<u8>, Vec<u8>), Timestamp, Diff)>) -> Seq<
    (Seq<u8>, Seq<u8>, Diff),
> {
    Seq::new(entries.len(), |i: int| (entries[i].0.0@, entries[i].0.1@, entries[i].2))
}

impl<K, V> TypedCollection<K, V> {
    /// Sets the given k,v pair: adds to the batch for `collection` the
    /// changes that set the given key to the given value, where `prev` is the
    /// value that the key had.
    pub fn upsert_key(
        &self,
        collection: &StashCollection<K, V>,
        batch: &mut AppendBatch,
        key: &Vec<u8>,
        prev: Option<Vec<u8>>,
        value: Vec<u8>,
    )
        ensures
            changes_view(final(batch).entries@) == changes_view(old(batch).entries@)
                + upsert_changes(
                key@,
                match prev {
                    Some(prev) => Some(prev@),
                    None => None,
                },
                value@,
            ),
            old(batch).entries@.len() <= final(batch).entries@.len(),
            forall|i: int|
                old(batch).entries@.len() <= i < final(batch).entries@.len() ==> (
                #[trigger] final(batch).entries@[i]).1 == old(batch).timestamp,
            final(batch).entries@.take(old(batch).entries@.len() as int) == old(batch).entries@,
            final(batch).collection_id == old(batch).collection_id,
            final(batch).lower == old(batch).lower,
            final(batch).upper == old(batch).upper,
            final(batch).timestamp == old(batch).timestamp,
    {
        let ghost before = batch.entries@;
        match prev {
            Some(prev) => {
                collection.append_to_batch(batch, key.clone(), prev, -1);
            },
            None => {},
        }
        collection.append_to_batch(batch, key.clone(), value, 1);
        proof {
            assert(changes_view(batch.entries@) =~= changes_view(before) + upsert_changes(
                key@,
                match prev {
                    Some(prev) => Some(prev@),
                    None => None,
                },
                value@,
            ));
        }
    }
}

/// A key to set, with the value it had, if it had one, and the value it gets.
pub struct Upsert {
    pub key: Vec<u8>,
    pub prev: Option<Vec<u8>>,
    pub value: Vec<u8>,
}

/// The changes that set the keys of `upserts`, one after the other.
pub open spec fn upserts_changes(upserts: Seq<Upsert>) -> Seq<(Seq<u8>, Seq<u8>, Diff)>
    decreases upserts.len(),
{
    if upserts.len() == 0 {
        Seq::empty()
    } else {
        upserts_changes(upserts.drop_last()) + upsert_changes(
            upserts.last().key@,
            match upserts.last().prev {
                Some(prev) => Some(prev@),
                None => None,
            },
            upserts.last().value@,
        )
    }
}

impl<K, V> TypedCollection<K, V> {
    /// Sets the given key value pairs, removing existing entries that match
    /// any key: adds the changes to the batch for `collection`.
    pub fn upsert(
        &self,
        collection: &StashCollection<K, V>,
        batch: &mut AppendBatch,
        upserts: Vec<Upsert>,
    )
        ensures
            changes_view(final(batch).entries@) == changes_view(old(batch).entries@)
                + upserts_changes(upserts@),
            old(batch).entries@.len() <= final(batch).entries@.len(),
            forall|i: int|
                old(batch).entries@.len() <= i < final(batch).entries@.len() ==> (
                #[trigger] final(batch).entries@[i]).1 == old(batch).timestamp,
            final(batch).entries@.take(old(batch).entries@.len() as int) == old(batch).entries@,
            final(batch).collection_id == old(batch).collection_id,
            final(batch).lower == old(batch).lower,
            final(batch).upper == old(batch).upper,
            final(batch).timestamp == old(batch).timestamp,
    {
        let ghost all = upserts@;
        let ghost before = batch.entries@;
        for upsert in walk: upserts
            invariant
                walk.seq() == all,
                before == old(batch).entries@,
                before.len() <= batch.entries@.len(),
                changes_view(batch.entries@) == changes_view(before) + upserts_changes(
                    all.take(walk.index() as int),
                ),
                forall|i: int|
                    before.len() <= i < batch.entries@.len() ==> (#[trigger] batch.entries@[i]).1
                        == batch.timestamp,
                batch.entries@.take(before.len() as int) == before,
                batch.collection_id == old(batch).collection_id,
                batch.lower == old(batch).lower,
                batch.upper == old(batch).upper,
                batch.timestamp == old(batch).timestamp,
        {
            let ghost at = walk.index() as int;
            let ghost sofar = batch.entries@;
            let Upsert { key, prev, value } = upsert;
            self.upsert_key(collection, batch, &key, prev, value);
            proof {
                assert(all.take(at + 1).drop_last() =~= all.take(at));
                assert(batch.entries@.take(before.len() as int) =~= sofar.take(
                    before.len() as int,
                ));
                assert forall|i: int|
                    before.len() <= i < batch.entries@.len() implies (#[trigger] batch.entries@[i]).1
                    == batch.timestamp by {
                    if i < sofar.len() {
                        assert(batch.entries@[i] == batch.entries@.take(sofar.len() as int)[i]);
                    }
                }
            }
        }
        proof {
            assert(all.take(all.len() as int) =~= all);
        }
    }
}
} // verus!

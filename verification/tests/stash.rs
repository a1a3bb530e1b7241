use async_operators::batch::Upsert;
use async_operators::peek::{
    format_antichain, key_value_of, peek, peek_key_one, peek_one, peek_timestamp,
};
use async_operators::stash::{InternalStashError, StashCollection, StashError, TypedCollection};
use timely::progress::Antichain;

fn other(error: StashError) -> String {
    match error.inner {
        InternalStashError::Other(message) => message,
        inner => panic!("expected a plain error, got {:?}", inner),
    }
}

#[test]
fn frontier_is_written_in_braces() {
    assert_eq!(format_antichain(&vec![]), "{}");
    assert_eq!(format_antichain(&vec![7]), "{7}");
    assert_eq!(format_antichain(&vec![1, -2, 30]), "{1, -2, 30}");
    assert_eq!(format_antichain(&vec![i64::MIN]), "{-9223372036854775808}");
}

#[test]
fn peek_timestamp_is_right_before_the_upper() {
    let since = Antichain::from_elem(2);
    assert_eq!(peek_timestamp(&since, &Antichain::from_elem(3)).unwrap(), 2);
    assert_eq!(peek_timestamp(&since, &Antichain::from_elem(10)).unwrap(), 9);
    assert_eq!(
        peek_timestamp(&Antichain::from_elem(i64::MIN), &Antichain::from_elem(i64::MIN + 1))
            .unwrap(),
        i64::MIN
    );
}

#[test]
fn peek_timestamp_of_a_closed_collection_is_the_greatest_time() {
    assert_eq!(peek_timestamp(&Antichain::from_elem(5), &Antichain::new()).unwrap(), i64::MAX);
}

#[test]
fn peek_timestamp_needs_since_before_upper() {
    let error = peek_timestamp(&Antichain::from_elem(3), &Antichain::from_elem(3)).unwrap_err();
    assert!(error.is_peek_since_upper());
    assert!(!error.is_unrecoverable());
    match &error.inner {
        InternalStashError::PeekSinceUpper(message) => {
            assert_eq!(message, "collection since {3} is not less than upper {3}")
        }
        inner => panic!("expected a since/upper error, got {:?}", inner),
    }
    assert_eq!(
        error.message(),
        "stash error: collection since {3} is not less than upper {3}"
    );
    let error = peek_timestamp(&Antichain::from_elem(4), &Antichain::from_elem(0)).unwrap_err();
    assert_eq!(
        error.message(),
        "stash error: collection since {4} is not less than upper {0}"
    );
    // Both closed: the upper is not beyond the since.
    let error = peek_timestamp(&Antichain::new(), &Antichain::new()).unwrap_err();
    assert_eq!(error.message(), "stash error: collection since {} is not less than upper {}");
    let error = peek_timestamp(&Antichain::new(), &Antichain::from_elem(1)).unwrap_err();
    assert_eq!(error.message(), "stash error: collection since {} is not less than upper {1}");
}

#[test]
fn error_message_names_the_stash() {
    assert_eq!(StashError::other("boom").message(), "stash error: boom");
    let fence = StashError { inner: InternalStashError::Fence("fenced out".to_string()) };
    assert_eq!(fence.message(), "stash error: fenced out");
    assert!(!fence.is_peek_since_upper());
}

fn row(key: u8, value: &str, diff: i64) -> (Vec<u8>, Vec<u8>, i64) {
    (vec![key], value.as_bytes().to_vec(), diff)
}

fn pair(key: u8, value: &str) -> (Vec<u8>, Vec<u8>) {
    (vec![key], value.as_bytes().to_vec())
}

#[test]
fn peek_one_gives_the_value_of_each_key() {
    let rows = vec![row(1, "a", 1), row(2, "b", 1), row(3, "c", 1)];
    assert_eq!(peek_one(rows).unwrap(), vec![pair(1, "a"), pair(2, "b"), pair(3, "c")]);
    assert_eq!(peek_one(vec![]).unwrap(), vec![]);
    // Keys that begin alike are not the same key.
    let rows = vec![(vec![1], vec![], 1), (vec![1, 0], vec![], 1), (vec![], vec![], 1)];
    assert_eq!(
        peek_one(rows).unwrap(),
        vec![(vec![1], vec![]), (vec![1, 0], vec![]), (vec![], vec![])]
    );
}

#[test]
fn peek_one_refuses_multiplicities_other_than_one() {
    for diff in [0, 2, -1] {
        let error = peek_one(vec![row(1, "a", 1), row(2, "b", diff)]).unwrap_err();
        assert_eq!(other(error), "unexpected peek multiplicity");
    }
}

#[test]
fn peek_one_refuses_duplicate_keys() {
    let error = peek_one(vec![row(1, "a", 1), row(2, "b", 1), row(1, "c", 1)]).unwrap_err();
    assert_eq!(other(error), "duplicate peek keys");
}

#[test]
fn peek_one_reports_the_first_row_in_the_way() {
    let error = peek_one(vec![row(1, "a", 1), row(1, "b", 1), row(2, "c", 2)]).unwrap_err();
    assert_eq!(other(error), "duplicate peek keys");
    let error = peek_one(vec![row(1, "a", 1), row(2, "c", 2), row(1, "b", 1)]).unwrap_err();
    assert_eq!(other(error), "unexpected peek multiplicity");
    // A row that is both counts as a wrong multiplicity.
    let error = peek_one(vec![row(1, "a", 1), row(1, "b", 2)]).unwrap_err();
    assert_eq!(other(error), "unexpected peek multiplicity");
}

#[test]
fn key_value_of_consolidated_rows() {
    assert_eq!(key_value_of(vec![]).unwrap(), None);
    assert_eq!(key_value_of(vec![(vec![1, 2], 1)]).unwrap(), Some(vec![1, 2]));
    assert_eq!(key_value_of(vec![(vec![1, 2], 0)]).unwrap(), None);
    for diff in [2, -1] {
        let error = key_value_of(vec![(vec![1], diff)]).unwrap_err();
        assert_eq!(other(error), "multiple values unexpected");
    }
    let error = key_value_of(vec![(vec![1], 1), (vec![2], 1)]).unwrap_err();
    assert_eq!(other(error), "multiple values unexpected");
}

#[test]
fn peek_key_one_consolidates_what_is_sealed() {
    let a = vec![b'a'];
    let b = vec![b'b'];
    // Set to a, then changed to b.
    let entries = vec![(a.clone(), 1, 1), (b.clone(), 3, 1), (a.clone(), 3, -1)];
    assert_eq!(peek_key_one(entries.clone(), 1).unwrap(), Some(a.clone()));
    assert_eq!(peek_key_one(entries.clone(), 2).unwrap(), Some(a.clone()));
    assert_eq!(peek_key_one(entries.clone(), 3).unwrap(), Some(b.clone()));
    assert_eq!(peek_key_one(entries.clone(), 0).unwrap(), None);
    // Set and removed again.
    let entries = vec![(a.clone(), 1, 1), (a.clone(), 2, -1)];
    assert_eq!(peek_key_one(entries.clone(), 2).unwrap(), None);
    assert_eq!(peek_key_one(entries, 1).unwrap(), Some(a.clone()));
    // Two values at once.
    let entries = vec![(a.clone(), 1, 1), (b.clone(), 1, 1)];
    assert_eq!(other(peek_key_one(entries, 1).unwrap_err()), "multiple values unexpected");
    // One value twice.
    let entries = vec![(a.clone(), 1, 1), (a.clone(), 2, 1)];
    assert_eq!(other(peek_key_one(entries, 2).unwrap_err()), "multiple values unexpected");
    // A single row whose changes cancel out.
    assert_eq!(peek_key_one(vec![(a, 1, 0)], 1).unwrap(), None);
}

#[test]
fn make_batch_moves_the_upper_by_one() {
    let collection: StashCollection<u64, String> = StashCollection::from(7);
    let batch = collection.make_batch(Antichain::from_elem(4)).unwrap();
    assert_eq!(batch.collection_id, 7);
    assert_eq!(batch.lower.elements(), &[4]);
    assert_eq!(batch.upper.elements(), &[5]);
    assert_eq!(batch.timestamp, 4);
    assert!(batch.entries.is_empty());
}

#[test]
fn make_batch_needs_one_time_with_a_next() {
    let collection: StashCollection<u64, String> = StashCollection::from(7);
    let error = collection.make_batch(Antichain::new()).unwrap_err();
    assert_eq!(other(error), "cannot determine batch timestamp");
    let error = collection.make_batch(Antichain::from_elem(i64::MAX)).unwrap_err();
    assert_eq!(other(error), "cannot determine new upper");
}

#[test]
fn append_to_batch_uses_the_time_of_the_batch() {
    let collection: StashCollection<u64, String> = StashCollection::from(1);
    let mut batch = collection.make_batch(Antichain::from_elem(9)).unwrap();
    collection.append_to_batch(&mut batch, vec![1], vec![2], 1);
    collection.append_to_batch(&mut batch, vec![3], vec![4], -1);
    assert_eq!(
        batch.entries,
        vec![((vec![1], vec![2]), 9, 1), ((vec![3], vec![4]), 9, -1)]
    );
}

#[test]
fn upsert_retracts_the_previous_value() {
    let typed: TypedCollection<u64, String> = TypedCollection::new("settings");
    let collection: StashCollection<u64, String> = StashCollection::from(1);
    let mut batch = collection.make_batch(Antichain::from_elem(2)).unwrap();
    typed.upsert_key(&collection, &mut batch, &vec![1], None, vec![10]);
    typed.upsert_key(&collection, &mut batch, &vec![1], Some(vec![10]), vec![11]);
    assert_eq!(
        batch.entries,
        vec![
            ((vec![1], vec![10]), 2, 1),
            ((vec![1], vec![10]), 2, -1),
            ((vec![1], vec![11]), 2, 1),
        ]
    );
    let mut batch = collection.make_batch(Antichain::from_elem(3)).unwrap();
    typed.upsert(
        &collection,
        &mut batch,
        vec![
            Upsert { key: vec![1], prev: Some(vec![11]), value: vec![12] },
            Upsert { key: vec![2], prev: None, value: vec![20] },
        ],
    );
    assert_eq!(
        batch.entries,
        vec![
            ((vec![1], vec![11]), 3, -1),
            ((vec![1], vec![12]), 3, 1),
            ((vec![2], vec![20]), 3, 1),
        ]
    );
    typed.upsert(&collection, &mut batch, vec![]);
    assert_eq!(batch.entries.len(), 3);
}

#[test]
fn peek_consolidates_the_sealed_entries_in_order() {
    let k1 = vec![1];
    let k2 = vec![2];
    let a = vec![b'a'];
    let b = vec![b'b'];
    let entries = vec![
        ((k2.clone(), a.clone()), 1, 1),
        ((k1.clone(), a.clone()), 1, 1),
        ((k1.clone(), a.clone()), 2, -1),
        ((k1.clone(), b.clone()), 2, 1),
        ((k2.clone(), a.clone()), 3, -1),
    ];
    assert_eq!(
        peek(entries.clone(), 1),
        vec![(k1.clone(), a.clone(), 1), (k2.clone(), a.clone(), 1)]
    );
    assert_eq!(
        peek(entries.clone(), 2),
        vec![(k1.clone(), b.clone(), 1), (k2.clone(), a.clone(), 1)]
    );
    assert_eq!(peek(entries.clone(), 3), vec![(k1.clone(), b.clone(), 1)]);
    assert_eq!(peek(entries, 0), vec![]);
}

//! A transaction over a table of a durable store.
//!
//! The transaction starts from the entries that the table holds and records
//! what each key is to become. Reads see the recorded changes. A rule on
//! pairs of values says which values may not stand side by side in the table.

use crate::stash::{Diff, StashError};
use std::collections::BTreeMap;
use vstd::std_specs::iter::IteratorSpec;
use vstd::prelude::*;

verus! {
/// Whether `entries` lists each key of `map` once, with its value, in the order of the keys.
pub open spec fn lists_map<V>(entries: Seq<(u64, V)>, map: Map<u64, V>) -> bool {
    &&& entries.len() == map.dom().len()
    &&& forall|i: int|
        #![trigger entries[i]]
        0 <= i < entries.len() ==> map.contains_key(entries[i].0) && map[entries[i].0]
            == entries[i].1
    &&& forall|i: int, j: int|
        #![trigger entries[i], entries[j]]
        0 <= i < j < entries.len() ==> entries[i].0 < entries[j].0
    &&& forall|k: u64|
        #[trigger] map.contains_key(k) ==> exists|i: int|
            0 <= i < entries.len() && #[trigger] entries[i] == (k, map[k])
}

/// The entries of a map, each key once, in the order of the keys.
fn entries_of<'a, V>(map: &'a BTreeMap<u64, V>) -> (entries: Vec<(&'a u64, &'a V)>)
    ensures
        lists_map(entries@.unref(), map@),
{
    let mut entries: Vec<(&'a u64, &'a V)> = Vec::new();
    let ghost all = vstd::std_specs::btree::spec_btree_map_iter(map).remaining();
    for entry in it: map.iter()
        invariant
            it.seq() == all,
            vstd::std_specs::btree::increasing_seq(all.map_values(|kv: (&u64, &V)| *kv.0)),
            entries@ == it.seq().take(it.index() as int),
    {
        entries.push(entry);
    }
    proof {
        let listed = entries@.unref();
        let keys = all.map_values(|kv: (&u64, &V)| *kv.0);
        crate::walk::lemma_walk_grows(keys);
        assert forall|i: int, j: int| 0 <= i < j < listed.len() implies (#[trigger] listed[i]).0
            < (#[trigger] listed[j]).0 by {
            assert(keys[i] == listed[i].0);
            assert(keys[j] == listed[j].0);
        }
        assert forall|k: u64| #[trigger] map@.contains_key(k) implies listed.contains(
            (k, map@[k]),
        ) by {
            let i = choose|i: int| 0 <= i < all.len() && all[i] == (&k, &map@[k]);
            assert(listed[i] == (k, map@[k]));
        }
    }
    entries
}

/// The entries that a transaction shows: what is pending for a key comes
/// before what the table held for it, and a key that is pending as deleted
/// is not there.
pub open spec fn visible<V>(initial: Map<u64, V>, pending: Map<u64, Option<V>>) -> Map<u64, V> {
    Map::new(
        |k: u64|
            if pending.contains_key(k) {
                pending[k] is Some
            } else {
                initial.contains_key(k)
            },
        |k: u64|
            if pending.contains_key(k) {
                pending[k]->0
            } else {
                initial[k]
            },
    )
}

/// What is pending once each of `changes` is to become the value of its key.
pub open spec fn with_updates<V>(pending: Map<u64, Option<V>>, changes: Map<u64, V>) -> Map<
    u64,
    Option<V>,
> {
    Map::new(
        |k: u64| pending.contains_key(k) || changes.contains_key(k),
        |k: u64|
            if changes.contains_key(k) {
                Some(changes[k])
            } else {
                pending[k]
            },
    )
}

/// What is pending once each of `removed` is to be deleted.
pub open spec fn with_deletions<V>(pending: Map<u64, Option<V>>, removed: Set<u64>) -> Map<
    u64,
    Option<V>,
> {
    Map::new(
        |k: u64| pending.contains_key(k) || removed.contains(k),
        |k: u64|
            if removed.contains(k) {
                None
            } else {
                pending[k]
            },
    )
}

/// The changes that bring a key from the value `held` to the value
/// `becomes`: the retraction of what was held, then the addition of what it
/// becomes.
pub open spec fn change_of<V>(key: u64, held: Option<V>, becomes: Option<V>) -> Seq<(u64, V, Diff)> {
    (match held {
        Some(v) => seq![(key, v, -1i64)],
        None => Seq::empty(),
    }) + (match becomes {
        Some(v) => seq![(key, v, 1i64)],
        None => Seq::empty(),
    })
}

/// The changes that bring the keys of `entries`, one after the other, from
/// what `initial` holds for them to what the entries say.
pub open spec fn changes_of<V>(entries: Seq<(u64, Option<V>)>, initial: Map<u64, V>) -> Seq<
    (u64, V, Diff),
>
    decreases entries.len(),
{
    if entries.len() == 0 {
        Seq::empty()
    } else {
        let (key, becomes) = entries.last();
        let held = if initial.contains_key(key) {
            Some(initial[key])
        } else {
            None
        };
        changes_of(entries.drop_last(), initial) + change_of(key, held, becomes)
    }
}

/// Whether `given` holds, change by change, a copy of what `expected` holds.
pub open spec fn copies<V: Clone>(expected: Seq<(u64, V, Diff)>, given: Seq<(u64, V, Diff)>) -> bool {
    &&& given.len() == expected.len()
    &&& forall|i: int|
        #![trigger given[i]]
        0 <= i < given.len() ==> given[i].0 == expected[i].0 && given[i].2 == expected[i].2
            && cloned(expected[i].1, given[i].1)
}

/// Whether `entries` lists each key of `map` once, with its value.
pub open spec fn lists_once<V>(entries: Seq<(u64, V)>, map: Map<u64, V>) -> bool {
    &&& entries.len() == map.dom().len()
    &&& forall|i: int|
        #![trigger entries[i]]
        0 <= i < entries.len() ==> map.contains_key(entries[i].0) && map[entries[i].0]
            == entries[i].1
    &&& forall|i: int, j: int|
        #![trigger entries[i], entries[j]]
        0 <= i < j < entries.len() ==> entries[i].0 != entries[j].0
    &&& forall|k: u64|
        #[trigger] map.contains_key(k) ==> exists|i: int|
            0 <= i < entries.len() && #[trigger] entries[i] == (k, map[k])
}

/// Whether `numeric_identity` gives for `key` an identifier that is at most `bound`.
pub open spec fn identified_below<N: Fn(&u64) -> i64>(numeric_identity: N, key: u64, bound: int) -> bool {
    exists|id: i64| #[trigger] call_ensures(numeric_identity, (&key,), id) && id <= bound
}

/// Whether `next` comes right after the greatest identifier that
/// `numeric_identity` gives for one of `keys`, or is 1 where there is no key.
pub open spec fn next_after<N: Fn(&u64) -> i64>(numeric_identity: N, keys: Set<u64>, next: i64) -> bool {
    &&& forall|k: u64| #[trigger] keys.contains(k) ==> identified_below(numeric_identity, k, next - 1)
    &&& if keys.is_empty() {
        next == 1
    } else {
        exists|k: u64, id: i64|
            keys.contains(k) && #[trigger] call_ensures(numeric_identity, (&k,), id) && id + 1
                == next
    }
}

/// Whether the rule has found that `a` beside `b` violates uniqueness.
pub open spec fn violates<V, U: Fn(&V, &V) -> bool>(rule: U, a: V, b: V) -> bool {
    call_ensures(rule, (&a, &b), true)
}

/// Whether the rule has found that `a` may stand beside `b`.
pub open spec fn allows<V, U: Fn(&V, &V) -> bool>(rule: U, a: V, b: V) -> bool {
    call_ensures(rule, (&a, &b), false)
}

/// Whether the rule has found some entry of `items` to violate uniqueness beside another.
pub open spec fn some_violation<V, U: Fn(&V, &V) -> bool>(rule: U, items: Map<u64, V>) -> bool {
    exists|k1: u64, k2: u64|
        items.contains_key(k1) && items.contains_key(k2) && k1 != k2 && #[trigger] violates(
            rule,
            items[k1],
            items[k2],
        )
}

/// Whether the rule has found that every entry of `items` may stand beside every other.
pub open spec fn all_allowed<V, U: Fn(&V, &V) -> bool>(rule: U, items: Map<u64, V>) -> bool {
    forall|k1: u64, k2: u64|
        items.contains_key(k1) && items.contains_key(k2) && k1 != k2 ==> #[trigger] allows(
            rule,
            items[k1],
            items[k2],
        )
}

/// TableTransaction emulates some features of a typical SQL transaction over
/// a table.
///
/// It supports:
/// - auto increment primary keys
/// - uniqueness constraints
/// - transactional reads and writes (including read-your-writes before commit)
///
/// The keys are numbers; multiple entries with the same key are disallowed.
/// `V` is an arbitrary value type, and `U` the type of the rule that tells
/// whether two values violate uniqueness.
pub struct TableTransaction<V, U> {
    initial: BTreeMap<u64, V>,
    // The desired state of keys after commit. `None` means the value will be
    // deleted.
    pending: BTreeMap<u64, Option<V>>,
    next_id: Option<i64>,
    uniqueness_violation: U,
}

impl<V: Clone, U: Fn(&V, &V) -> bool> TableTransaction<V, U> {
    /// The entries that the table held when the transaction began.
    pub closed spec fn spec_initial(&self) -> Map<u64, V> {
        self.initial@
    }

    /// What the keys are to become: a value, or nothing for a key to be deleted.
    pub closed spec fn spec_pending(&self) -> Map<u64, Option<V>> {
        self.pending@
    }

    /// The identifier that the next inserted entry gets, where identifiers are given out.
    pub closed spec fn spec_next_id(&self) -> Option<i64> {
        self.next_id
    }

    /// The rule that tells whether two values violate uniqueness.
    pub closed spec fn rule(&self) -> U {
        self.uniqueness_violation
    }

    /// The entries viewable in the transaction.
    pub open spec fn spec_items(&self) -> Map<u64, V> {
        visible(self.spec_initial(), self.spec_pending())
    }

    /// The rule can be asked about any two values.
    pub open spec fn wf(&self) -> bool {
        forall|a: V, b: V| call_requires(self.rule(), (&a, &b))
    }

    /// Create a new TableTransaction with initial data. `numeric_identity` is a
    /// function to extract an ID from the initial keys (or `None` to disable auto
    /// incrementing). `uniqueness_violation` is a function whether there is a
    /// uniqueness violation among two values.
    ///
    /// The identifiers must leave room for a next one.
    pub fn new<N: Fn(&u64) -> i64>(
        initial: BTreeMap<u64, V>,
        numeric_identity: Option<N>,
        uniqueness_violation: U,
    ) -> (transaction: Self)
        requires
            forall|a: V, b: V| call_requires(uniqueness_violation, (&a, &b)),
            numeric_identity matches Some(f) ==> forall|k: u64| #[trigger]
                initial@.contains_key(k) ==> call_requires(f, (&k,)) && forall|id: i64|
                    call_ensures(f, (&k,), id) ==> id < i64::MAX,
        ensures
            transaction.wf(),
            transaction.spec_initial() == initial@,
            transaction.spec_pending() == Map::<u64, Option<V>>::empty(),
            transaction.rule() == uniqueness_violation,
            match numeric_identity {
                None => transaction.spec_next_id() is None,
                Some(f) => transaction.spec_next_id() matches Some(next) && next_after(
                    f,
                    initial@.dom(),
                    next,
                ),
            },
    {
        let next_id = match &numeric_identity {
            None => None,
            Some(f) => {
                let keys = entries_of(&initial);
                let ghost listed = keys@.unref();
                let mut max: i64 = 0;
                let mut i: usize = 0;
                while i < keys.len()
                    invariant
                        i <= keys.len(),
                        listed == keys@.unref(),
                        lists_map(listed, initial@),
                        forall|k: u64| #[trigger]
                            initial@.contains_key(k) ==> call_requires(f, (&k,)) && forall|id: i64|
                                call_ensures(f, (&k,), id) ==> id < i64::MAX,
                        max < i64::MAX,
                        i == 0 ==> max == 0,
                        forall|n: int|
                            0 <= n < i ==> identified_below(*f, (#[trigger] listed[n]).0, max as int),
                        i > 0 ==> exists|n: int, id: i64|
                            0 <= n < i && #[trigger] call_ensures(f, (&listed[n].0,), id) && id
                                == max,
                    decreases keys.len() - i,
                {
                    let (k, _) = keys[i];
                    proof {
                        assert(listed[i as int].0 == *k);
                    }
                    let id = f(k);
                    if i == 0 || id > max {
                        max = id;
                    }
                    i += 1;
                }
                let next = max + 1;
                Some(next)
            },
        };
        TableTransaction { initial, pending: BTreeMap::new(), next_id, uniqueness_violation }
    }

    /// Iterates over the items viewable in the current transaction in arbitrary
    /// order: gives each of them once.
    pub fn for_values<'a>(&'a self) -> (values: Vec<(&'a u64, &'a V)>)
        ensures
            lists_once(values@.unref(), self.spec_items()),
    {
        let mut values: Vec<(&'a u64, &'a V)> = Vec::new();
        let pending = entries_of(&self.pending);
        let ghost items = self.spec_items();
        let ghost changed = self.pending@;
        let ghost held = self.initial@;
        // Deleted items don't exist so shouldn't be visited, but their keys
        // still hide what the table held.
        let mut i: usize = 0;
        while i < pending.len()
            invariant
                i <= pending.len(),
                changed == self.pending@,
                held == self.initial@,
                items == visible(held, changed),
                lists_map(pending@.unref(), changed),
                forall|n: int|
                    #![trigger values@[n]]
                    0 <= n < values.len() ==> changed.contains_key(*values@[n].0)
                        && changed[*values@[n].0] == Some(*values@[n].1),
                forall|n: int|
                    #![trigger values@[n]]
                    0 <= n < values.len() && i < pending.len() ==> *values@[n].0
                        < pending@.unref()[i as int].0,
                forall|n: int, m: int|
                    #![trigger values@[n], values@[m]]
                    0 <= n < m < values.len() ==> *values@[n].0 != *values@[m].0,
                forall|m: int|
                    #![trigger pending@.unref()[m]]
                    0 <= m < i && pending@.unref()[m].1 is Some ==> exists|n: int|
                        0 <= n < values.len() && #[trigger] values@.unref()[n] == (
                            pending@.unref()[m].0,
                            pending@.unref()[m].1->0,
                        ),
            decreases pending.len() - i,
        {
            let (k, v) = pending[i];
            let ghost before = values@;
            let ghost here = i as int;
            proof {
                assert(pending@.unref()[here] == (*k, *v));
            }
            match v {
                Some(v) => {
                    values.push((k, v));
                    proof {
                        assert(values@.unref()[before.len() as int] == (*k, *v));
                        assert forall|m: int|
                            #![trigger pending@.unref()[m]]
                            0 <= m < i + 1 && pending@.unref()[m].1 is Some implies exists|n: int|
                            0 <= n < values.len() && #[trigger] values@.unref()[n] == (
                                pending@.unref()[m].0,
                                pending@.unref()[m].1->0,
                            ) by {
                            if m < here {
                                let w = choose|w: int|
                                    0 <= w < before.len() && #[trigger] before.unref()[w] == (
                                        pending@.unref()[m].0,
                                        pending@.unref()[m].1->0,
                                    );
                                assert(values@.unref()[w] == before.unref()[w]);
                            }
                        }
                    }
                },
                None => {},
            }
            i += 1;
        }
        let ghost from_pending = values@;
        let initial = entries_of(&self.initial);
        let mut j: usize = 0;
        while j < initial.len()
            invariant
                j <= initial.len(),
                changed == self.pending@,
                held == self.initial@,
                items == visible(held, changed),
                lists_map(initial@.unref(), held),
                from_pending.len() <= values.len(),
                values@.take(from_pending.len() as int) == from_pending,
                forall|n: int|
                    #![trigger values@[n]]
                    0 <= n < from_pending.len() ==> changed.contains_key(*values@[n].0)
                        && changed[*values@[n].0] == Some(*values@[n].1),
                forall|n: int|
                    #![trigger values@[n]]
                    from_pending.len() <= n < values.len() ==> !changed.contains_key(*values@[n].0)
                        && held.contains_key(*values@[n].0) && held[*values@[n].0]
                        == *values@[n].1,
                forall|n: int|
                    #![trigger values@[n]]
                    from_pending.len() <= n < values.len() && j < initial.len() ==> *values@[n].0
                        < initial@.unref()[j as int].0,
                forall|n: int, m: int|
                    #![trigger values@[n], values@[m]]
                    0 <= n < m < values.len() ==> *values@[n].0 != *values@[m].0,
                forall|m: int|
                    #![trigger initial@.unref()[m]]
                    0 <= m < j && !changed.contains_key(initial@.unref()[m].0) ==> exists|n: int|
                        0 <= n < values.len() && #[trigger] values@.unref()[n]
                            == initial@.unref()[m],
            decreases initial.len() - j,
        {
            let (k, v) = initial[j];
            let ghost before = values@;
            let ghost here = j as int;
            proof {
                assert(initial@.unref()[here] == (*k, *v));
            }
            // Add on initial items that don't have updates.
            if !self.pending.contains_key(k) {
                values.push((k, v));
                proof {
                    assert(values@.unref()[before.len() as int] == (*k, *v));
                    assert forall|m: int|
                        #![trigger initial@.unref()[m]]
                        0 <= m < j + 1 && !changed.contains_key(
                            initial@.unref()[m].0,
                        ) implies exists|n: int|
                        0 <= n < values.len() && #[trigger] values@.unref()[n]
                            == initial@.unref()[m] by {
                        if m < here {
                            let w = choose|w: int|
                                0 <= w < before.len() && #[trigger] before.unref()[w]
                                    == initial@.unref()[m];
                            assert(values@.unref()[w] == before.unref()[w]);
                        }
                    }
                }
            }
            j += 1;
        }
        proof {
            let listed = values@.unref();
            assert forall|k: u64| #[trigger] items.contains_key(k) implies exists|n: int|
                0 <= n < listed.len() && #[trigger] listed[n] == (k, items[k]) by {
                if changed.contains_key(k) {
                    let at = choose|at: int|
                        0 <= at < pending@.unref().len() && #[trigger] pending@.unref()[at] == (
                            k,
                            changed[k],
                        );
                    let w = choose|w: int|
                        0 <= w < from_pending.len() && #[trigger] from_pending.unref()[w] == (
                            pending@.unref()[at].0,
                            pending@.unref()[at].1->0,
                        );
                    assert(listed[w] == (k, items[k]));
                }
            }
            let keys = listed.map_values(|entry: (u64, V)| entry.0);
            keys.unique_seq_to_set();
            assert(keys.to_set() =~= items.dom()) by {
                assert forall|k: u64| keys.to_set().contains(k) <==> items.dom().contains(k) by {
                    if items.contains_key(k) {
                        let n = choose|n: int|
                            0 <= n < listed.len() && #[trigger] listed[n] == (k, items[k]);
                        assert(keys[n] == k);
                    }
                }
            }
        }
        values
    }

    /// Returns the items viewable in the current transaction: a copy of each.
    pub fn items(&self) -> (items: BTreeMap<u64, V>)
        ensures
            items@.dom() == self.spec_items().dom(),
            forall|k: u64| #[trigger]
                items@.contains_key(k) ==> cloned(self.spec_items()[k], items@[k]),
    {
        let ghost shown = self.spec_items();
        let values = self.for_values();
        let ghost listed = values@.unref();
        let mut items: BTreeMap<u64, V> = BTreeMap::new();
        let mut i: usize = 0;
        while i < values.len()
            invariant
                i <= values.len(),
                listed == values@.unref(),
                lists_once(listed, shown),
                forall|k: u64| #[trigger]
                    items@.contains_key(k) <==> exists|n: int|
                        0 <= n < i && (#[trigger] listed[n]).0 == k,
                forall|k: u64| #[trigger] items@.contains_key(k) ==> cloned(shown[k], items@[k]),
            decreases values.len() - i,
        {
            let (k, v) = values[i];
            proof {
                assert(listed[i as int] == (*k, *v));
            }
            items.insert(*k, v.clone());
            i += 1;
        }
        items
    }

    /// Compares each value to each other value and ensures they are unique.
    ///
    /// The error tells that the rule has found a violation between two of
    /// the items viewable in the transaction; without it, the rule has found
    /// every two of them to be allowed.
    pub fn verify(&self) -> (result: Result<(), StashError>)
        requires
            self.wf(),
        ensures
            result is Ok ==> all_allowed(self.rule(), self.spec_items()),
            result is Err ==> some_violation(self.rule(), self.spec_items()),
            result matches Err(error) ==> error.says("uniqueness violation"@),
    {
        let ghost shown = self.spec_items();
        let ghost rule = self.rule();
        let values = self.for_values();
        let ghost listed = values@.unref();
        let mut i: usize = 0;
        while i < values.len()
            invariant
                i <= values.len(),
                self.wf(),
                rule == self.rule(),
                listed == values@.unref(),
                lists_once(listed, shown),
                shown == self.spec_items(),
                forall|n: int, m: int|
                    #![trigger listed[n], listed[m]]
                    0 <= n < i && 0 <= m < listed.len() && n != m ==> allows(
                        rule,
                        listed[n].1,
                        listed[m].1,
                    ),
            decreases values.len() - i,
        {
            let (_, vi) = values[i];
            let mut j: usize = 0;
            while j < values.len()
                invariant
                    i < values.len(),
                    j <= values.len(),
                    self.wf(),
                    rule == self.rule(),
                    listed == values@.unref(),
                    lists_once(listed, shown),
                    shown == self.spec_items(),
                    *vi == listed[i as int].1,
                    forall|m: int|
                        #![trigger listed[m]]
                        0 <= m < j && m != i ==> allows(rule, listed[i as int].1, listed[m].1),
                decreases values.len() - j,
            {
                let (_, vj) = values[j];
                if i != j && (self.uniqueness_violation)(vi, vj) {
                    proof {
                        let k1 = listed[i as int].0;
                        let k2 = listed[j as int].0;
                        assert(violates(rule, shown[k1], shown[k2]));
                    }
                    return Err(StashError::other("uniqueness violation"));
                }
                j += 1;
            }
            i += 1;
        }
        Ok(())
    }

    /// Whether inserting `value` under `key` takes the transaction from
    /// `self` to `after` and gives `result`.
    ///
    /// The insertion is refused, and nothing changes, if the key is viewable
    /// already or the rule has found the value to violate uniqueness beside
    /// a viewable one. Otherwise the key is pending with the value, and the
    /// identifier that was next is given back and followed by its successor.
    pub open spec fn inserts(
        &self,
        key: u64,
        value: V,
        after: &Self,
        result: Result<Option<i64>, ()>,
    ) -> bool {
        let items = self.spec_items();
        &&& after.spec_initial() == self.spec_initial()
        &&& after.rule() == self.rule()
        &&& match result {
            Err(_) => {
                &&& after.spec_pending() == self.spec_pending()
                &&& after.spec_next_id() == self.spec_next_id()
                &&& (items.contains_key(key) || exists|k: u64|
                    items.contains_key(k) && #[trigger] violates(self.rule(), items[k], value))
            },
            Ok(id) => {
                &&& id == self.spec_next_id()
                &&& !items.contains_key(key)
                &&& forall|k: u64|
                    items.contains_key(k) ==> #[trigger] allows(self.rule(), items[k], value)
                &&& after.spec_pending() == self.spec_pending().insert(key, Some(value))
                &&& after.spec_next_id() == (match self.spec_next_id() {
                    Some(id) => Some((id + 1) as i64),
                    None => None,
                })
            },
        }
    }

    /// Inserts a new k,v pair. `key_from_id` is a function that returns a new
    /// key provided a new autoincremented id (`key_from_id` will be passed `None`
    /// if auto increment was disabled above, but it must still return the new
    /// key). The new id is guaranteed to be different from all current and pending
    /// ids (but not all ids ever).
    ///
    /// Returns an error if the uniqueness check failed or the key already exists.
    pub fn insert<F: FnOnce(Option<i64>) -> u64>(&mut self, key_from_id: F, v: V) -> (result: Result<
        Option<i64>,
        (),
    >)
        requires
            old(self).wf(),
            call_requires(key_from_id, (old(self).spec_next_id(),)),
            old(self).spec_next_id() matches Some(id) ==> id < i64::MAX,
        ensures
            final(self).wf(),
            exists|key: u64| #[trigger]
                call_ensures(key_from_id, (old(self).spec_next_id(),), key) && old(self).inserts(
                    key,
                    v,
                    final(self),
                    result,
                ),
    {
        let id = self.next_id;
        let next_id = match self.next_id {
            Some(id) => Some(id + 1),
            None => None,
        };
        let k = key_from_id(id);
        let ghost items = self.spec_items();
        let ghost rule = self.rule();
        let mut violation = false;
        let values = self.for_values();
        let ghost listed = values@.unref();
        let mut i: usize = 0;
        while i < values.len()
            invariant
                i <= values.len(),
                self.wf(),
                rule == self.rule(),
                listed == values@.unref(),
                lists_once(listed, items),
                violation ==> (items.contains_key(k) || exists|k2: u64|
                    items.contains_key(k2) && #[trigger] violates(rule, items[k2], v)),
                !violation ==> forall|n: int|
                    #![trigger listed[n]]
                    0 <= n < i ==> listed[n].0 != k && allows(rule, listed[n].1, v),
            decreases values.len() - i,
        {
            let (for_k, for_v) = values[i];
            proof {
                assert(listed[i as int] == (*for_k, *for_v));
            }
            if k == *for_k || (self.uniqueness_violation)(for_v, &v) {
                proof {
                    if k != *for_k {
                        assert(violates(rule, items[*for_k], v));
                    }
                }
                violation = true;
            }
            i += 1;
        }
        if violation {
            return Err(());
        }
        self.pending.insert(k, Some(v));
        self.next_id = next_id;
        Ok(id)
    }

    /// Makes each of `changes` pending, each under its key.
    fn extend_pending(&mut self, changes: Vec<(u64, Option<V>)>)
        requires
            forall|n: int, m: int|
                #![trigger changes[n], changes[m]]
                0 <= n < m < changes.len() ==> changes[n].0 != changes[m].0,
        ensures
            final(self).initial == old(self).initial,
            final(self).next_id == old(self).next_id,
            final(self).uniqueness_violation == old(self).uniqueness_violation,
            forall|k: u64| #[trigger]
                final(self).pending@.contains_key(k) <==> (old(self).pending@.contains_key(k)
                    || exists|n: int| 0 <= n < changes.len() && (#[trigger] changes[n]).0 == k),
            forall|n: int|
                #![trigger changes[n]]
                0 <= n < changes.len() ==> final(self).pending@[changes[n].0] == changes[n].1,
            forall|k: u64|
                (forall|n: int| 0 <= n < changes.len() ==> (#[trigger] changes[n]).0 != k)
                    ==> #[trigger] final(self).pending@[k] == old(self).pending@[k],
    {
        let ghost all = changes@;
        for change in walk: changes
            invariant
                walk.seq() == all,
                forall|n: int, m: int|
                    #![trigger all[n], all[m]]
                    0 <= n < m < all.len() ==> all[n].0 != all[m].0,
                self.initial == old(self).initial,
                self.next_id == old(self).next_id,
                self.uniqueness_violation == old(self).uniqueness_violation,
                forall|k: u64| #[trigger]
                    self.pending@.contains_key(k) <==> (old(self).pending@.contains_key(k)
                        || exists|n: int| 0 <= n < walk.index() && (#[trigger] all[n]).0 == k),
                forall|n: int|
                    #![trigger all[n]]
                    0 <= n < walk.index() ==> self.pending@[all[n].0] == all[n].1,
                forall|k: u64|
                    (forall|n: int| 0 <= n < walk.index() ==> (#[trigger] all[n]).0 != k)
                        ==> #[trigger] self.pending@[k] == old(self).pending@[k],
        {
            let (k, p) = change;
            self.pending.insert(k, p);
        }
    }

    /// Whether updating with `f`, which has answered with `changes`, takes
    /// the transaction from `self` to `after` and gives `result`.
    ///
    /// `changes` holds the new value for each viewable entry that `f` gave
    /// one for. The changes become pending, and their number is given
    /// back, if the rule has found every two of the entries then viewable to
    /// be allowed; if it has found a violation, nothing changes.
    pub open spec fn updates<F: Fn(&u64, &V) -> Option<V>>(
        &self,
        f: F,
        changes: Map<u64, V>,
        after: &Self,
        result: Result<Diff, StashError>,
    ) -> bool {
        let items = self.spec_items();
        let candidate = with_updates(self.spec_pending(), changes);
        &&& forall|k: u64| #[trigger] changes.contains_key(k) ==> items.contains_key(k)
        &&& forall|k: u64| #[trigger]
            items.contains_key(k) ==> call_ensures(
                f,
                (&k, &items[k]),
                if changes.contains_key(k) {
                    Some(changes[k])
                } else {
                    None
                },
            )
        &&& after.spec_initial() == self.spec_initial()
        &&& after.rule() == self.rule()
        &&& after.spec_next_id() == self.spec_next_id()
        &&& match result {
            Ok(changed) => {
                &&& after.spec_pending() == candidate
                &&& changed == changes.dom().len()
                &&& all_allowed(self.rule(), visible(self.spec_initial(), candidate))
            },
            Err(error) => {
                &&& after.spec_pending() == self.spec_pending()
                &&& some_violation(self.rule(), visible(self.spec_initial(), candidate))
                &&& error.says("uniqueness violation"@)
            },
        }
    }

    /// Updates k, v pairs. `f` is a function that can return `Some(V)` if the
    /// value should be updated, otherwise `None`. Returns the number of changed
    /// entries.
    ///
    /// Returns an error if the uniqueness check failed.
    pub fn update<F: Fn(&u64, &V) -> Option<V>>(&mut self, f: F) -> (result: Result<
        Diff,
        StashError,
    >)
        requires
            old(self).wf(),
            old(self).spec_items().dom().len() <= i64::MAX,
            forall|k: u64| #[trigger]
                old(self).spec_items().contains_key(k) ==> call_requires(
                    f,
                    (&k, &old(self).spec_items()[k]),
                ),
        ensures
            final(self).wf(),
            exists|changes: Map<u64, V>| #[trigger] old(self).updates(f, changes, final(self), result),
    {
        let ghost items = self.spec_items();
        let mut changed: i64 = 0;
        let mut list: Vec<(u64, Option<V>)> = Vec::new();
        let ghost mut changes: Map<u64, V> = Map::empty();
        let values = self.for_values();
        let ghost listed = values@.unref();
        let mut i: usize = 0;
        while i < values.len()
            invariant
                i <= values.len(),
                values.len() <= i64::MAX,
                listed == values@.unref(),
                lists_once(listed, items),
                forall|k: u64| #[trigger]
                    items.contains_key(k) ==> call_requires(f, (&k, &items[k])),
                0 <= changed <= i,
                changes.dom().finite(),
                changed == changes.dom().len(),
                forall|k: u64| #[trigger] changes.contains_key(k) ==> items.contains_key(k),
                forall|m: int|
                    #![trigger listed[m]]
                    i <= m < listed.len() ==> !changes.contains_key(listed[m].0),
                forall|m: int|
                    #![trigger listed[m]]
                    0 <= m < i ==> call_ensures(
                        f,
                        (&listed[m].0, &listed[m].1),
                        if changes.contains_key(listed[m].0) {
                            Some(changes[listed[m].0])
                        } else {
                            None
                        },
                    ),
                forall|n: int|
                    #![trigger list[n]]
                    0 <= n < list.len() ==> changes.contains_key(list[n].0) && list[n].1 == Some(
                        changes[list[n].0],
                    ),
                forall|k: u64| #[trigger]
                    changes.contains_key(k) ==> exists|n: int|
                        0 <= n < list.len() && (#[trigger] list[n]).0 == k,
                forall|n: int, m: int|
                    #![trigger list[n], list[m]]
                    0 <= n < m < list.len() ==> list[n].0 != list[m].0,
            decreases values.len() - i,
        {
            let (k, v) = values[i];
            let ghost here = i as int;
            let ghost listed_before = list@;
            proof {
                assert(listed[here] == (*k, *v));
            }
            match f(k, v) {
                Some(next) => {
                    changed += 1;
                    list.push((*k, Some(next)));
                    proof {
                        changes = changes.insert(*k, next);
                        assert forall|key: u64| #[trigger]
                            changes.contains_key(key) implies exists|n: int|
                            0 <= n < list.len() && (#[trigger] list[n]).0 == key by {
                            if key == *k {
                                assert(list[listed_before.len() as int].0 == key);
                            } else {
                                let n = choose|n: int|
                                    0 <= n < listed_before.len() && (#[trigger] listed_before[n]).0
                                        == key;
                                assert(list[n].0 == key);
                            }
                        }
                    }
                },
                None => {},
            }
            i += 1;
        }
        // Keep a copy of pending in case of uniqueness violation.
        let pending = self.pending.clone();
        self.extend_pending(list);
        proof {
            assert(self.pending@ =~= with_updates(old(self).pending@, changes)) by {
                assert forall|k: u64| self.pending@.contains_key(k) implies self.pending@[k]
                    == with_updates(old(self).pending@, changes)[k] by {
                    if !changes.contains_key(k) {
                        assert(forall|n: int|
                            0 <= n < list.len() ==> (#[trigger] list[n]).0 != k);
                    }
                }
            }
        }
        assert(self.wf()) by {
            assert(self.rule() == old(self).rule());
        }
        // Check for uniqueness violation.
        match self.verify() {
            Err(err) => {
                self.pending = pending;
                proof {
                    assert(old(self).updates(f, changes, self, Err(err)));
                }
                Err(err)
            },
            Ok(_) => {
                proof {
                    assert(old(self).updates(f, changes, self, Ok(changed)));
                }
                Ok(changed)
            },
        }
    }

    /// Whether deleting with `f`, which has chosen `removed`, takes the
    /// transaction from `self` to `after` and gives `deleted`.
    ///
    /// `removed` holds the keys of the viewable entries that `f` has chosen.
    /// They become pending as deleted, and their number is given back.
    pub open spec fn deletes<F: Fn(&u64, &V) -> bool>(
        &self,
        f: F,
        removed: Set<u64>,
        after: &Self,
        deleted: Diff,
    ) -> bool {
        let items = self.spec_items();
        &&& forall|k: u64| #[trigger] removed.contains(k) ==> items.contains_key(k)
        &&& forall|k: u64| #[trigger]
            items.contains_key(k) ==> call_ensures(f, (&k, &items[k]), removed.contains(k))
        &&& after.spec_initial() == self.spec_initial()
        &&& after.rule() == self.rule()
        &&& after.spec_next_id() == self.spec_next_id()
        &&& after.spec_pending() == with_deletions(self.spec_pending(), removed)
        &&& deleted == removed.len()
    }

    /// Deletes items for which `f` returns true. Returns the number of deleted
    /// items.
    pub fn delete<F: Fn(&u64, &V) -> bool>(&mut self, f: F) -> (deleted: Diff)
        requires
            old(self).wf(),
            old(self).spec_items().dom().len() <= i64::MAX,
            forall|k: u64| #[trigger]
                old(self).spec_items().contains_key(k) ==> call_requires(
                    f,
                    (&k, &old(self).spec_items()[k]),
                ),
        ensures
            final(self).wf(),
            exists|removed: Set<u64>| #[trigger] old(self).deletes(f, removed, final(self), deleted),
    {
        let ghost items = self.spec_items();
        let mut changed: i64 = 0;
        let mut list: Vec<(u64, Option<V>)> = Vec::new();
        let ghost mut removed: Set<u64> = Set::empty();
        let values = self.for_values();
        let ghost listed = values@.unref();
        let mut i: usize = 0;
        while i < values.len()
            invariant
                i <= values.len(),
                values.len() <= i64::MAX,
                listed == values@.unref(),
                lists_once(listed, items),
                forall|k: u64| #[trigger]
                    items.contains_key(k) ==> call_requires(f, (&k, &items[k])),
                0 <= changed <= i,
                removed.finite(),
                changed == removed.len(),
                forall|k: u64| #[trigger] removed.contains(k) ==> items.contains_key(k),
                forall|m: int|
                    #![trigger listed[m]]
                    i <= m < listed.len() ==> !removed.contains(listed[m].0),
                forall|m: int|
                    #![trigger listed[m]]
                    0 <= m < i ==> call_ensures(
                        f,
                        (&listed[m].0, &listed[m].1),
                        removed.contains(listed[m].0),
                    ),
                forall|n: int|
                    #![trigger list[n]]
                    0 <= n < list.len() ==> removed.contains(list[n].0) && list[n].1 is None,
                forall|k: u64| #[trigger]
                    removed.contains(k) ==> exists|n: int|
                        0 <= n < list.len() && (#[trigger] list[n]).0 == k,
                forall|n: int, m: int|
                    #![trigger list[n], list[m]]
                    0 <= n < m < list.len() ==> list[n].0 != list[m].0,
            decreases values.len() - i,
        {
            let (k, v) = values[i];
            let ghost here = i as int;
            let ghost listed_before = list@;
            proof {
                assert(listed[here] == (*k, *v));
            }
            if f(k, v) {
                changed += 1;
                list.push((*k, None));
                proof {
                    removed = removed.insert(*k);
                    assert forall|key: u64| #[trigger] removed.contains(key) implies exists|n: int|
                        0 <= n < list.len() && (#[trigger] list[n]).0 == key by {
                        if key == *k {
                            assert(list[listed_before.len() as int].0 == key);
                        } else {
                            let n = choose|n: int|
                                0 <= n < listed_before.len() && (#[trigger] listed_before[n]).0
                                    == key;
                            assert(list[n].0 == key);
                        }
                    }
                }
            }
            i += 1;
        }
        self.extend_pending(list);
        proof {
            assert(self.pending@ =~= with_deletions(old(self).pending@, removed)) by {
                assert forall|k: u64| self.pending@.contains_key(k) implies self.pending@[k]
                    == with_deletions(old(self).pending@, removed)[k] by {
                    if !removed.contains(k) {
                        assert(forall|n: int|
                            0 <= n < list.len() ==> (#[trigger] list[n]).0 != k);
                    }
                }
            }
            assert(old(self).deletes(f, removed, self, changed));
        }
        changed
    }

    /// Consumes and returns the pending changes and their diffs. `Diff` is
    /// guaranteed to be 1 or -1.
    ///
    /// Pending describes the desired final state for some keys. The changes
    /// come key by key, in the order of the keys: an entry that the table
    /// held is retracted, and an entry that is to be there is added.
    pub fn pending(self) -> (diffs: Vec<(u64, V, Diff)>)
        ensures
            exists|entries: Seq<(u64, Option<V>)>| #[trigger]
                lists_map(entries, self.spec_pending()) && copies(
                    changes_of(entries, self.spec_initial()),
                    diffs@,
                ),
    {
        let entries = entries_of(&self.pending);
        let ghost listed = entries@.unref();
        let ghost held = self.initial@;
        let mut diffs: Vec<(u64, V, Diff)> = Vec::new();
        let mut i: usize = 0;
        while i < entries.len()
            invariant
                i <= entries.len(),
                listed == entries@.unref(),
                lists_map(listed, self.pending@),
                held == self.initial@,
                copies(changes_of(listed.take(i as int), held), diffs@),
            decreases entries.len() - i,
        {
            let (k, v) = entries[i];
            proof {
                assert(listed.take(i + 1).drop_last() =~= listed.take(i as int));
            }
            match self.initial.get(k) {
                Some(initial_v) => {
                    diffs.push((*k, initial_v.clone(), -1));
                    match v {
                        Some(v) => {
                            diffs.push((*k, v.clone(), 1));
                        },
                        None => {},
                    }
                },
                None => {
                    match v {
                        Some(v) => {
                            diffs.push((*k, v.clone(), 1));
                        },
                        None => {},
                    }
                },
            }
            proof {
                assert(changes_of(listed.take(i + 1), held) == changes_of(
                    listed.take(i as int),
                    held,
                ) + change_of(
                    *k,
                    if held.contains_key(*k) {
                        Some(held[*k])
                    } else {
                        None
                    },
                    *v,
                ));
            }
            i += 1;
        }
        proof {
            assert(listed.take(i as int) =~= listed);
            assert(lists_map(listed, self.spec_pending()));
        }
        diffs
    }
}
} // verus!

//! Last-Writer-Wins Map (LWWMap) CRDT.
//!
//! A key-value map where each key holds an [`LWWRegister`]. Concurrent writes to the same key
//! are resolved by highest timestamp, with node_id as tiebreaker.
use crate::collections::{exact_clone, into_entries, lawful_key, map_entries};
use crate::registers::LWWRegister;
use crate::traits::Crdt;
use crate::NodeId;
use std::collections::BTreeMap;
use vstd::prelude::*;

verus! {

/// A map where each key independently resolves conflicts using last-writer-wins.
///
/// Peer A sets "x" = 5 at time 3 and peer B sets "x" = 9 at time 7; after a merge "x" = 9, because
/// the higher timestamp wins.
///
/// Keys are created on first write and never removed.
#[derive(Debug, PartialEq)]
pub struct LWWMap<K, V> where K: Ord + Clone, V: Clone + PartialEq {
    pub entries: BTreeMap<K, LWWRegister<V>>,
}

/// The registers of both sides, merged key by key.
pub open spec fn join_registers<K, V: Clone + PartialEq>(
    a: Map<K, LWWRegister<V>>,
    b: Map<K, LWWRegister<V>>,
) -> Map<K, LWWRegister<V>> {
    Map::new(
        |key: K| a.contains_key(key) || b.contains_key(key),
        |key: K|
            if a.contains_key(key) && b.contains_key(key) {
                LWWRegister::join(a[key], b[key])
            } else if a.contains_key(key) {
                a[key]
            } else {
                b[key]
            },
    )
}

/// Every register of `a` is part of the one that `b` has under its key.
pub open spec fn registers_below<K, V: Clone + PartialEq>(
    a: Map<K, LWWRegister<V>>,
    b: Map<K, LWWRegister<V>>,
) -> bool {
    forall|key: K| #[trigger]
        a.contains_key(key) ==> b.contains_key(key) && LWWRegister::below(a[key], b[key])
}

/// Registers under one key that carry the same stamp hold the same value.
pub open spec fn registers_agree<K, V: Clone + PartialEq>(
    a: Map<K, LWWRegister<V>>,
    b: Map<K, LWWRegister<V>>,
) -> bool {
    forall|key: K| #[trigger]
        a.contains_key(key) && b.contains_key(key) ==> LWWRegister::agree(a[key], b[key])
}

/// The map that results from merging the rows, one after the other, into an empty map.
pub open spec fn collapse<K, V: Clone + PartialEq>(rows: Seq<(K, LWWRegister<V>)>) -> Map<
    K,
    LWWRegister<V>,
>
    decreases rows.len(),
{
    if rows.len() == 0 {
        Map::empty()
    } else {
        join_registers(
            collapse(rows.drop_last()),
            Map::empty().insert(rows.last().0, rows.last().1),
        )
    }
}

/// Merging maps of registers in either order gives the same map.
pub proof fn registers_commute<K, V: Clone + PartialEq>(
    a: Map<K, LWWRegister<V>>,
    b: Map<K, LWWRegister<V>>,
)
    requires
        registers_agree(a, b),
    ensures
        join_registers(a, b) == join_registers(b, a),
{
    assert(join_registers(a, b) =~= join_registers(b, a));
}

/// Merging maps of registers in either grouping gives the same map.
pub proof fn registers_associate<K, V: Clone + PartialEq>(
    a: Map<K, LWWRegister<V>>,
    b: Map<K, LWWRegister<V>>,
    c: Map<K, LWWRegister<V>>,
)
    ensures
        join_registers(join_registers(a, b), c) == join_registers(a, join_registers(b, c)),
{
    assert(join_registers(join_registers(a, b), c) =~= join_registers(a, join_registers(b, c)));
}

/// Merging a map of registers into itself gives that map.
pub proof fn registers_repeat<K, V: Clone + PartialEq>(a: Map<K, LWWRegister<V>>)
    ensures
        join_registers(a, a) == a,
{
    assert(join_registers(a, a) =~= a);
}

/// Merging a map of registers into one that it is part of changes nothing.
pub proof fn registers_included<K, V: Clone + PartialEq>(
    a: Map<K, LWWRegister<V>>,
    b: Map<K, LWWRegister<V>>,
)
    requires
        registers_agree(a, b),
        registers_below(a, b),
    ensures
        join_registers(a, b) == b,
{
    assert(join_registers(a, b) =~= b);
}

/// Rows with distinct keys collapse to the map that they list.
pub proof fn collapse_lists<K, V: Clone + PartialEq>(rows: Seq<(K, LWWRegister<V>)>)
    requires
        forall|i: int, j: int|
            #![trigger rows[i], rows[j]]
            0 <= i < j < rows.len() ==> rows[i].0 != rows[j].0,
    ensures
        forall|key: K| #[trigger]
            collapse(rows).contains_key(key) <==> exists|i: int|
                0 <= i < rows.len() && (#[trigger] rows[i]).0 == key,
        forall|i: int|
            #![trigger rows[i]]
            0 <= i < rows.len() ==> collapse(rows)[rows[i].0] == rows[i].1,
    decreases rows.len(),
{
    if rows.len() > 0 {
        let rest = rows.drop_last();
        let last = rows.last();
        assert forall|i: int| 0 <= i < rest.len() implies #[trigger] rest[i] == rows[i] by {}
        collapse_lists(rest);
        assert(rows[rows.len() - 1] == last);
        assert forall|key: K| #[trigger] collapse(rows).contains_key(key) <==> exists|i: int|
            0 <= i < rows.len() && (#[trigger] rows[i]).0 == key by {
            if collapse(rest).contains_key(key) {
                let i = choose|i: int| 0 <= i < rest.len() && (#[trigger] rest[i]).0 == key;
                assert(rows[i].0 == key);
            }
            if exists|i: int| 0 <= i < rows.len() && (#[trigger] rows[i]).0 == key {
                let i = choose|i: int| 0 <= i < rows.len() && (#[trigger] rows[i]).0 == key;
                if i < rest.len() {
                    assert(rest[i].0 == key);
                }
            }
        }
        assert forall|i: int|
            #![trigger rows[i]]
            0 <= i < rows.len() implies collapse(rows)[rows[i].0] == rows[i].1 by {
            if i < rest.len() {
                assert(rest[i] == rows[i]);
                assert(collapse(rest).contains_key(rest[i].0));
            } else if collapse(rest).contains_key(last.0) {
                let k = choose|k: int| 0 <= k < rest.len() && (#[trigger] rest[k]).0 == last.0;
                assert(rows[k].0 == last.0);
            }
        }
    }
}

/// Merges one register into a map.
pub fn merge_register<K: Ord, V: Clone + PartialEq>(
    map: &mut BTreeMap<K, LWWRegister<V>>,
    key: K,
    register: LWWRegister<V>,
)
    ensures
        lawful_key::<K>() ==> final(map)@ == join_registers(
            old(map)@,
            Map::empty().insert(key, register),
        ),
{
    let ghost before = map@;
    let merged = match map.remove(&key) {
        Some(mine) => {
            let mut mine = mine;
            mine.merge(register);
            mine
        },
        None => register,
    };
    map.insert(key, merged);
    assert(lawful_key::<K>() ==> map@ =~= join_registers(
        before,
        Map::empty().insert(key, register),
    ));
}

/// Merges rows of registers into a map, one after the other.
pub fn merge_rows<K: Ord, V: Clone + PartialEq>(
    map: &mut BTreeMap<K, LWWRegister<V>>,
    rows: Vec<(K, LWWRegister<V>)>,
)
    ensures
        lawful_key::<K>() ==> final(map)@ == join_registers(old(map)@, collapse(rows@)),
{
    let ghost start = map@;
    let ghost all = rows@;
    assert(all.take(0) =~= Seq::empty());
    assert(join_registers(start, Map::empty()) =~= start);
    for row in iter: rows
        invariant
            iter.seq() == all,
            lawful_key::<K>() ==> map@ == join_registers(
                start,
                collapse(all.take(iter.index())),
            ),
    {
        let ghost at = iter.index();
        let (key, register) = row;
        merge_register(map, key, register);
        proof {
            assert(all[at] == row);
            assert(all.take(at + 1).drop_last() =~= all.take(at));
            registers_associate(
                start,
                collapse(all.take(at)),
                Map::empty().insert(key, register),
            );
        }
    }
    assert(all.take(all.len() as int) =~= all);
}

/// Merges a map of registers into another.
pub fn merge_registers<K: Ord, V: Clone + PartialEq>(
    map: &mut BTreeMap<K, LWWRegister<V>>,
    other: BTreeMap<K, LWWRegister<V>>,
)
    ensures
        lawful_key::<K>() ==> final(map)@ == join_registers(old(map)@, other@),
{
    let ghost theirs = other@;
    let rows = into_entries(other);
    proof {
        if lawful_key::<K>() {
            collapse_lists(rows@);
            assert(collapse(rows@) =~= theirs);
        }
    }
    merge_rows(map, rows);
}

/// Whether every register of `a` is part of the one that `b` has under its key.
pub fn compare_registers<K: Ord, V: Clone + PartialEq>(
    a: &BTreeMap<K, LWWRegister<V>>,
    b: &BTreeMap<K, LWWRegister<V>>,
) -> (included: bool)
    ensures
        lawful_key::<K>() ==> included == registers_below(a@, b@),
{
    let rows = map_entries(a);
    let ghost listed = rows@.unref();
    for i in 0..rows.len()
        invariant
            listed == rows@.unref(),
            lawful_key::<K>() ==> crate::collections::lists_map(listed, a@),
            lawful_key::<K>() ==> forall|j: int|
                #![trigger listed[j]]
                0 <= j < i ==> b@.contains_key(listed[j].0) && LWWRegister::below(
                    listed[j].1,
                    b@[listed[j].0],
                ),
    {
        assert(listed[i as int] == (*rows@[i as int].0, *rows@[i as int].1));
        assert(lawful_key::<K>() ==> a@.contains_key(listed[i as int].0));
        match b.get(rows[i].0) {
            Some(register) => {
                if !rows[i].1.compare(register) {
                    return false;
                }
            },
            None => {
                return false;
            },
        }
    }
    true
}

impl<K, V> View for LWWMap<K, V> where K: Ord + Clone, V: Clone + PartialEq {
    type V = Map<K, LWWRegister<V>>;

    open spec fn view(&self) -> Map<K, LWWRegister<V>> {
        self.entries@
    }
}

impl<K, V> Clone for LWWMap<K, V> where K: Ord + Clone, V: Clone + PartialEq {
    fn clone(&self) -> (copy: Self)
        ensures
            copy@ == self@,
    {
        LWWMap { entries: self.entries.clone() }
    }
}

impl<K, V> Default for LWWMap<K, V> where K: Ord + Clone, V: Clone + PartialEq {
    fn default() -> (map: Self)
        ensures
            map@ == Map::<K, LWWRegister<V>>::empty(),
    {
        LWWMap { entries: BTreeMap::new() }
    }
}

/// Update operations for LWWMap.
///
/// The map itself has no concept of time or identity, it forwards the timestamp and node_id to
/// the underlying [`LWWRegister`] for each key. The caller generates timestamps, for example with
/// a [`VectorClock`](crate::clocks::VectorClock).
impl<K, V> LWWMap<K, V> where K: Ord + Clone, V: Clone + PartialEq {
    /// An empty map.
    pub fn new() -> (map: Self)
        ensures
            map@ == Map::<K, LWWRegister<V>>::empty(),
    {
        Self::default()
    }

    /// Sets a key to a value at the given timestamp.
    ///
    /// If the key already exists, the write is forwarded to its LWWRegister, which only accepts
    /// it if the timestamp is higher (or equal with a higher node_id). Returns `false` if the
    /// write is rejected.
    ///
    /// If the key is new, a fresh LWWRegister is created.
    pub fn set(&mut self, key: K, value: V, timestamp: u64, node_id: NodeId) -> (accepted: bool)
        ensures
            lawful_key::<K>() ==> accepted == (old(self)@.contains_key(key)
                ==> crate::registers::lww_register::stamp_exceeds(
                (timestamp, node_id),
                old(self)@[key].stamp(),
            )),
            lawful_key::<K>() ==> final(self)@ == join_registers(
                old(self)@,
                Map::empty().insert(key, (LWWRegister { value, timestamp, node_id })),
            ),
    {
        let ghost before = self@;
        let ghost write = LWWRegister { value, timestamp, node_id };
        let accepted = match self.entries.remove(&key) {
            Some(mine) => {
                let mut mine = mine;
                let accepted = mine.set(value, timestamp, node_id);
                self.entries.insert(key, mine);
                accepted
            },
            None => {
                self.entries.insert(key, LWWRegister::new(value, timestamp, node_id));
                true
            },
        };
        assert(lawful_key::<K>() ==> self@ =~= join_registers(
            before,
            Map::empty().insert(key, write),
        ));
        accepted
    }

    /// Returns the current value for a key, if it exists.
    pub fn get(&self, key: &K) -> (value: Option<V>)
        ensures
            lawful_key::<K>() ==> (value is Some <==> self@.contains_key(*key)),
            Self::lawful() && value is Some ==> value == Some(self@[*key].value),
    {
        match self.entries.get(key) {
            Some(register) => Some(register.value()),
            None => None,
        }
    }

    /// Returns true if the key exists in the map.
    pub fn contains_key(&self, key: &K) -> (found: bool)
        ensures
            lawful_key::<K>() ==> found == self@.contains_key(*key),
    {
        self.entries.contains_key(key)
    }
}

impl<K, V> Crdt for LWWMap<K, V> where K: Ord + Clone, V: Clone + PartialEq {
    type Value = BTreeMap<K, V>;

    open spec fn lawful() -> bool {
        lawful_key::<K>() && exact_clone::<K>() && exact_clone::<V>()
    }

    open spec fn same(a: Map<K, LWWRegister<V>>, b: Map<K, LWWRegister<V>>) -> bool {
        a == b
    }

    open spec fn join(a: Map<K, LWWRegister<V>>, b: Map<K, LWWRegister<V>>) -> Map<
        K,
        LWWRegister<V>,
    > {
        join_registers(a, b)
    }

    open spec fn below(a: Map<K, LWWRegister<V>>, b: Map<K, LWWRegister<V>>) -> bool {
        registers_below(a, b)
    }

    open spec fn valid(a: Map<K, LWWRegister<V>>) -> bool {
        true
    }

    open spec fn agree(a: Map<K, LWWRegister<V>>, b: Map<K, LWWRegister<V>>) -> bool {
        registers_agree(a, b)
    }

    open spec fn survives(a: Map<K, LWWRegister<V>>, b: Map<K, LWWRegister<V>>) -> bool {
        true
    }

    open spec fn adds_only(a: Map<K, LWWRegister<V>>, b: Map<K, LWWRegister<V>>) -> bool {
        true
    }

    open spec fn regroupable(
        a: Map<K, LWWRegister<V>>,
        b: Map<K, LWWRegister<V>>,
        c: Map<K, LWWRegister<V>>,
    ) -> bool {
        true
    }

    open spec fn readable(a: Map<K, LWWRegister<V>>) -> bool {
        true
    }

    open spec fn reads(a: Map<K, LWWRegister<V>>, value: BTreeMap<K, V>) -> bool {
        value@ == a.map_values(|register: LWWRegister<V>| register.value)
    }

    fn replica(&self) -> (copy: Self) {
        self.clone()
    }

    /// Returns a snapshot of all keys and their current values.
    fn value(&self) -> (value: BTreeMap<K, V>) {
        let rows = map_entries(&self.entries);
        let ghost listed = rows@.unref();
        let mut value: BTreeMap<K, V> = BTreeMap::new();
        for i in 0..rows.len()
            invariant
                listed == rows@.unref(),
                lawful_key::<K>() ==> crate::collections::lists_map(listed, self.entries@),
                Self::lawful() ==> {
                    &&& forall|key: K| #[trigger]
                        value@.contains_key(key) <==> exists|j: int|
                            0 <= j < i && (#[trigger] listed[j]).0 == key
                    &&& forall|j: int|
                        #![trigger listed[j]]
                        0 <= j < i ==> value@[listed[j].0] == listed[j].1.value
                },
        {
            assert(listed[i as int] == (*rows@[i as int].0, *rows@[i as int].1));
            let key = rows[i].0.clone();
            assert(cloned(*rows@[i as int].0, key));
            value.insert(key, rows[i].1.value());
        }
        proof {
            if Self::lawful() {
                assert(value@ =~= self@.map_values(|register: LWWRegister<V>| register.value));
            }
        }
        value
    }

    /// Merges by merging each register independently. Keys only in `other` are added. Keys only
    /// in `self` stay.
    fn merge(&mut self, other: Self) {
        merge_registers(&mut self.entries, other.entries);
    }

    /// Returns `true` if every key in `self` exists in `other` and each register is dominated by
    /// or equal to other's.
    fn compare(&self, other: &Self) -> (included: bool) {
        compare_registers(&self.entries, &other.entries)
    }

    proof fn merge_commutative(a: Map<K, LWWRegister<V>>, b: Map<K, LWWRegister<V>>) {
        registers_commute(a, b);
    }

    proof fn merge_associative(
        a: Map<K, LWWRegister<V>>,
        b: Map<K, LWWRegister<V>>,
        c: Map<K, LWWRegister<V>>,
    ) {
        registers_associate(a, b, c);
    }

    proof fn merge_idempotent(a: Map<K, LWWRegister<V>>) {
        registers_repeat(a);
    }

    proof fn merge_keeps_valid(a: Map<K, LWWRegister<V>>, b: Map<K, LWWRegister<V>>) {
    }

    proof fn merge_includes(a: Map<K, LWWRegister<V>>, b: Map<K, LWWRegister<V>>) {
    }

    proof fn compare_reflexive(a: Map<K, LWWRegister<V>>) {
    }

    proof fn compare_transitive(
        a: Map<K, LWWRegister<V>>,
        b: Map<K, LWWRegister<V>>,
        c: Map<K, LWWRegister<V>>,
    ) {
        assert forall|key: K| #[trigger] a.contains_key(key) implies c.contains_key(key)
            && LWWRegister::below(a[key], c[key]) by {
            assert(b.contains_key(key));
        }
    }

    proof fn compare_means_included(a: Map<K, LWWRegister<V>>, b: Map<K, LWWRegister<V>>) {
        registers_included(a, b);
    }
}

/// Keys are never removed: what either side has under a key is there after a merge, or a write
/// that supersedes it.
pub proof fn keys_never_removed<K: Ord + Clone, V: Clone + PartialEq>(
    a: Map<K, LWWRegister<V>>,
    b: Map<K, LWWRegister<V>>,
    key: K,
)
    ensures
        join_registers(a, b).contains_key(key) <==> a.contains_key(key) || b.contains_key(key),
        a.contains_key(key) ==> LWWRegister::below(a[key], join_registers(a, b)[key]),
        b.contains_key(key) ==> LWWRegister::below(b[key], join_registers(a, b)[key]),
{
}

/// A merge of maps has the keys of both sides, and under each key the later write: where both sides
/// have one, by time, then by node, then the one that was there.
pub proof fn merge_keeps_the_later_write<K, V: Clone + PartialEq>(
    a: Map<K, LWWRegister<V>>,
    b: Map<K, LWWRegister<V>>,
    key: K,
)
    ensures
        join_registers(a, b).contains_key(key) <==> a.contains_key(key) || b.contains_key(key),
        a.contains_key(key) && !b.contains_key(key) ==> join_registers(a, b)[key] == a[key],
        b.contains_key(key) && !a.contains_key(key) ==> join_registers(a, b)[key] == b[key],
        a.contains_key(key) && b.contains_key(key) ==> join_registers(a, b)[key] == if b[key].timestamp
            > a[key].timestamp || (b[key].timestamp == a[key].timestamp && b[key].node_id
            > a[key].node_id) {
            b[key]
        } else {
            a[key]
        },
        registers_below(a, b) ==> (a.contains_key(key) ==> b.contains_key(key) && (
        b[key].timestamp > a[key].timestamp || (b[key].timestamp == a[key].timestamp
            && b[key].node_id >= a[key].node_id))),
        (forall|k: K| #[trigger]
            a.contains_key(k) ==> b.contains_key(k) && (b[k].timestamp > a[k].timestamp || (
            b[k].timestamp == a[k].timestamp && b[k].node_id >= a[k].node_id)))
            ==> registers_below(a, b),
{
}

/// Two maps agree where writes under one key at the same time by the same node have one value.
pub proof fn agreement_by_key<K, V: Clone + PartialEq>(
    a: Map<K, LWWRegister<V>>,
    b: Map<K, LWWRegister<V>>,
)
    ensures
        registers_agree(a, b) <==> forall|key: K| #[trigger]
            a.contains_key(key) && b.contains_key(key) && a[key].timestamp == b[key].timestamp
                && a[key].node_id == b[key].node_id ==> a[key].value == b[key].value,
{
}

/// Rows that are merged one after the other leave, under each key that a row has, the write of one
/// of its rows, and none of its rows is later.
pub proof fn latest_row_is_kept<K, V: Clone + PartialEq>(rows: Seq<(K, LWWRegister<V>)>, key: K)
    ensures
        collapse(rows).contains_key(key) <==> exists|i: int|
            0 <= i < rows.len() && (#[trigger] rows[i]).0 == key,
        collapse(rows).contains_key(key) ==> exists|i: int|
            0 <= i < rows.len() && (#[trigger] rows[i]).0 == key && rows[i].1 == collapse(rows)[key],
        collapse(rows).contains_key(key) ==> forall|i: int|
            0 <= i < rows.len() && (#[trigger] rows[i]).0 == key ==> collapse(rows)[key].timestamp
                > rows[i].1.timestamp || (collapse(rows)[key].timestamp == rows[i].1.timestamp
                && collapse(rows)[key].node_id >= rows[i].1.node_id),
    decreases rows.len(),
{
    if rows.len() > 0 {
        let rest = rows.drop_last();
        let last = rows.last();
        latest_row_is_kept(rest, key);
        assert(rows[rows.len() - 1] == last);
        assert forall|i: int| 0 <= i < rest.len() implies #[trigger] rest[i] == rows[i] by {}
        merge_keeps_the_later_write(
            collapse(rest),
            Map::empty().insert(last.0, last.1),
            key,
        );
        if collapse(rest).contains_key(key) {
            let i = choose|i: int|
                0 <= i < rest.len() && (#[trigger] rest[i]).0 == key && rest[i].1 == collapse(
                    rest,
                )[key];
            assert(rows[i] == rest[i]);
        }
        if exists|i: int| 0 <= i < rows.len() && (#[trigger] rows[i]).0 == key {
            let i = choose|i: int| 0 <= i < rows.len() && (#[trigger] rows[i]).0 == key;
            if i < rest.len() {
                assert(rest[i].0 == key);
            }
        }
        if collapse(rows).contains_key(key) {
            assert forall|i: int| 0 <= i < rows.len() && (#[trigger] rows[i]).0 == key implies
                collapse(rows)[key].timestamp > rows[i].1.timestamp || (
            collapse(rows)[key].timestamp == rows[i].1.timestamp && collapse(rows)[key].node_id
                >= rows[i].1.node_id) by {
                if i < rest.len() {
                    assert(rest[i].0 == key);
                }
            }
        }
    }
}

/// What is read of a map is the value of the write under each key.
pub proof fn map_reads_values<K: Ord + Clone, V: Clone + PartialEq>(
    a: Map<K, LWWRegister<V>>,
    value: BTreeMap<K, V>,
    key: K,
)
    requires
        LWWMap::<K, V>::reads(a, value),
    ensures
        value@.contains_key(key) <==> a.contains_key(key),
        a.contains_key(key) ==> value@[key] == a[key].value,
{
}

/// A map merges and is compared key by key.
pub proof fn map_goes_by_keys<K: Ord + Clone, V: Clone + PartialEq>(
    a: Map<K, LWWRegister<V>>,
    b: Map<K, LWWRegister<V>>,
    c: Map<K, LWWRegister<V>>,
)
    ensures
        LWWMap::<K, V>::join(a, b) == join_registers(a, b),
        LWWMap::<K, V>::below(a, b) <==> registers_below(a, b),
        LWWMap::<K, V>::agree(a, b) <==> registers_agree(a, b),
        LWWMap::<K, V>::same(a, b) <==> a == b,
        LWWMap::<K, V>::lawful() <==> lawful_key::<K>() && exact_clone::<K>() && exact_clone::<V>(),
        LWWMap::<K, V>::valid(a),
        LWWMap::<K, V>::readable(a),
        LWWMap::<K, V>::survives(a, b),
        LWWMap::<K, V>::adds_only(a, b),
        LWWMap::<K, V>::regroupable(a, b, c),
{
}

} // verus!

//! Ordered collections: how a `BTreeMap` or a `BTreeSet` is listed and taken apart.
use std::collections::{BTreeMap, BTreeSet};
use vstd::prelude::*;

verus! {

/// The keys are ordered by a lawful `Ord`: a total order whose equality is that of the
/// values. Integers, and tuples of integers, are.
pub open spec fn lawful_key<K: Ord>() -> bool {
    vstd::laws_cmp::obeys_cmp::<K>()
}

/// A clone of a value is that value.
pub open spec fn exact_clone<T: Clone>() -> bool {
    forall|a: T, b: T| #[trigger] cloned(a, b) ==> a == b
}

/// `==` on the values is equality.
pub open spec fn exact_eq<T: PartialEq>() -> bool {
    vstd::laws_eq::obeys_concrete_eq::<T>()
}

/// `rows` holds every entry of `map` once.
pub open spec fn lists_map<K, V>(rows: Seq<(K, V)>, map: Map<K, V>) -> bool {
    &&& rows.len() == map.dom().len()
    &&& forall|i: int|
        #![trigger rows[i]]
        0 <= i < rows.len() ==> map.contains_key(rows[i].0) && map[rows[i].0] == rows[i].1
    &&& forall|k: K| #[trigger]
        map.contains_key(k) ==> exists|i: int| 0 <= i < rows.len() && (#[trigger] rows[i]).0 == k
    &&& forall|i: int, j: int|
        #![trigger rows[i], rows[j]]
        0 <= i < j < rows.len() ==> rows[i].0 != rows[j].0
}

/// `rows` holds every element of `set` once.
pub open spec fn lists_set<K>(rows: Seq<K>, set: Set<K>) -> bool {
    &&& rows.len() == set.len()
    &&& forall|i: int| #![trigger rows[i]] 0 <= i < rows.len() ==> set.contains(rows[i])
    &&& forall|k: K| #[trigger]
        set.contains(k) ==> exists|i: int| 0 <= i < rows.len() && #[trigger] rows[i] == k
    &&& forall|i: int, j: int|
        #![trigger rows[i], rows[j]]
        0 <= i < j < rows.len() ==> rows[i] != rows[j]
}

/// Increasing numbers are increasing under `<`.
pub proof fn increasing_ids(ids: Seq<u128>)
    requires
        vstd::std_specs::btree::increasing_seq(ids),
    ensures
        forall|i: int, j: int| #![trigger ids[i], ids[j]] 0 <= i < j < ids.len() ==>
            ids[i] < ids[j],
{
    assert forall|i: int, j: int| #![trigger ids[i], ids[j]] 0 <= i < j < ids.len() implies ids[i]
        < ids[j] by {
        assert(vstd::std_specs::cmp::OrdSpec::cmp_spec(&ids[i], &ids[j]) is Less);
    }
}

/// A filtered sequence has exactly the members that satisfy the predicate.
pub proof fn filter_members<T>(s: Seq<T>, keep: spec_fn(T) -> bool)
    ensures
        forall|x: T| #[trigger] s.filter(keep).contains(x) <==> s.contains(x) && keep(x),
    decreases s.len(),
{
    reveal(Seq::filter);
    if s.len() > 0 {
        let rest = s.drop_last();
        let last = s.last();
        filter_members(rest, keep);
        assert forall|x: T| #[trigger] s.filter(keep).contains(x) <==> s.contains(x) && keep(x) by {
            assert(s.contains(x) <==> rest.contains(x) || x == last) by {
                if rest.contains(x) {
                    let i = choose|i: int| 0 <= i < rest.len() && rest[i] == x;
                    assert(s[i] == x);
                }
                if s.contains(x) && x != last {
                    let i = choose|i: int| 0 <= i < s.len() && s[i] == x;
                    assert(rest[i] == x);
                }
                assert(s[s.len() - 1] == last);
            }
            let kept = rest.filter(keep);
            let with_last = kept.push(last);
            assert(with_last.contains(x) <==> kept.contains(x) || x == last) by {
                if kept.contains(x) {
                    let i = choose|i: int| 0 <= i < kept.len() && kept[i] == x;
                    assert(with_last[i] == x);
                }
                if with_last.contains(x) && x != last {
                    let i = choose|i: int| 0 <= i < with_last.len() && with_last[i] == x;
                    assert(kept[i] == x);
                }
                assert(with_last[kept.len() as int] == last);
            }
        }
    }
}

/// A `BTreeSet` holds finitely many elements.
pub proof fn set_is_finite<K>(set: &BTreeSet<K>)
    ensures
        set@.finite(),
{
    assert(vstd::std_specs::iter::IteratorSpec::remaining(
        &vstd::std_specs::btree::spec_btree_keys_iter(set),
    ).unref().to_set() == set@);
    vstd::seq_lib::seq_to_set_is_finite(
        vstd::std_specs::iter::IteratorSpec::remaining(
            &vstd::std_specs::btree::spec_btree_keys_iter(set),
        ).unref(),
    );
}

/// The first `count` items of an iterator.
fn take_items<I: Iterator>(iter: I, count: usize) -> (items: Vec<I::Item>)
    ensures
        vstd::std_specs::iter::IteratorSpec::obeys_prophetic_iter_laws(&iter)
            && vstd::std_specs::iter::IteratorSpec::remaining(&iter).len() == count ==> items@
            == vstd::std_specs::iter::IteratorSpec::remaining(&iter),
{
    let ghost all = vstd::std_specs::iter::IteratorSpec::remaining(&iter);
    let ghost lawful = vstd::std_specs::iter::IteratorSpec::obeys_prophetic_iter_laws(&iter)
        && all.len() == count;
    let mut iter = iter;
    let mut items: Vec<I::Item> = Vec::new();
    for done in 0..count
        invariant
            lawful ==> {
                &&& all.len() == count
                &&& vstd::std_specs::iter::IteratorSpec::obeys_prophetic_iter_laws(&iter)
                &&& items@ == all.take(done as int)
                &&& vstd::std_specs::iter::IteratorSpec::remaining(&iter) == all.skip(done as int)
            },
    {
        match iter.next() {
            Some(item) => {
                items.push(item);
            },
            None => {},
        }
        assert(lawful ==> all.skip(done as int).drop_first() =~= all.skip(done + 1));
        assert(lawful ==> all.take(done as int).push(all[done as int]) =~= all.take(done + 1));
    }
    assert(all.take(all.len() as int) =~= all);
    items
}

/// The entries of a map, by reference, in increasing order of the keys.
pub fn map_entries<'a, K: Ord, V>(map: &'a BTreeMap<K, V>) -> (rows: Vec<(&'a K, &'a V)>)
    ensures
        lawful_key::<K>() ==> lists_map(rows@.unref(), map@),
        lawful_key::<K>() ==> vstd::std_specs::btree::increasing_seq(
            rows@.unref().map_values(|row: (K, V)| row.0),
        ),
{
    let rows = take_items(map.iter(), map.len());
    proof {
        if lawful_key::<K>() {
            let listed = rows@.unref();
            assert(rows@.map_values(|kv: (&K, &V)| *kv.0) =~= listed.map_values(
                |row: (K, V)| row.0,
            ));
            assert forall|i: int| #![trigger listed[i]] 0 <= i < listed.len() implies {
                &&& map@.contains_key(listed[i].0)
                &&& map@[listed[i].0] == listed[i].1
            } by {
                assert(map@.contains_key(*rows@[i].0));
            }
            assert forall|k: K| #[trigger] map@.contains_key(k) implies exists|i: int|
                0 <= i < listed.len() && (#[trigger] listed[i]).0 == k by {
                let i = choose|i: int| 0 <= i < rows@.len() && rows@[i] == (&k, &map@[k]);
                assert(listed[i].0 == k);
            }
            assert forall|i: int, j: int|
                #![trigger listed[i], listed[j]]
                0 <= i < j < listed.len() implies listed[i].0 != listed[j].0 by {
                assert(rows@[i] != rows@[j]);
            }
        }
    }
    rows
}

/// The elements of a set, by reference, in increasing order.
pub fn set_elements<'a, K: Ord>(set: &'a BTreeSet<K>) -> (rows: Vec<&'a K>)
    ensures
        lawful_key::<K>() ==> lists_set(rows@.unref(), set@),
        lawful_key::<K>() ==> vstd::std_specs::btree::increasing_seq(rows@.unref()),
{
    let rows = take_items(set.iter(), set.len());
    proof {
        if lawful_key::<K>() {
            let listed = rows@.unref();
            assert forall|i: int| #![trigger listed[i]] 0 <= i < listed.len() implies set@.contains(
                listed[i],
            ) by {
                assert(listed.to_set().contains(listed[i]));
            }
            assert forall|k: K| #[trigger] set@.contains(k) implies exists|i: int|
                0 <= i < listed.len() && #[trigger] listed[i] == k by {
                assert(listed.to_set().contains(k));
            }
            assert forall|i: int, j: int|
                #![trigger listed[i], listed[j]]
                0 <= i < j < listed.len() implies listed[i] != listed[j] by {
                assert(rows@[i] != rows@[j]);
            }
            assert(vstd::laws_cmp::obeys_cmp::<&K>());
            assert forall|i: int, j: int| 0 <= i < j < listed.len() implies (
            #[trigger] vstd::std_specs::cmp::OrdSpec::cmp_spec(
                &listed[i],
                &listed[j],
            )) is Less by {
                assert(vstd::std_specs::cmp::OrdSpec::cmp_spec(&rows@[i], &rows@[j]) is Less);
            }
        }
    }
    rows
}

/// Takes the entry with the least key out of a map, by `BTreeMap::pop_first`: the entry that
/// is handed out was in the map, every other key is greater, and the map keeps the rest; nothing
/// is handed out exactly when the map is empty.
#[verifier::external_body]
pub(crate) fn take_first_entry<K: Ord, V>(map: &mut BTreeMap<K, V>) -> (taken: Option<(K, V)>)
    ensures
        lawful_key::<K>() ==> match taken {
            Some(row) => {
                &&& old(map)@.contains_key(row.0)
                &&& old(map)@[row.0] == row.1
                &&& final(map)@ == old(map)@.remove(row.0)
                &&& forall|k: K| #[trigger]
                    final(map)@.contains_key(k) ==> vstd::std_specs::cmp::OrdSpec::cmp_spec(
                        &row.0,
                        &k,
                    ) is Less
            },
            None => old(map)@.dom().is_empty() && final(map)@ == old(map)@,
        },
{
    map.pop_first()
}

/// Takes the least element out of a set, by `BTreeSet::pop_first`: the element that is handed
/// out was in the set, every other one is greater, and the set keeps the rest; nothing is handed
/// out exactly when the set is empty.
#[verifier::external_body]
pub(crate) fn take_first_element<K: Ord>(set: &mut BTreeSet<K>) -> (taken: Option<K>)
    ensures
        lawful_key::<K>() ==> match taken {
            Some(k) => {
                &&& old(set)@.contains(k)
                &&& final(set)@ == old(set)@.remove(k)
                &&& forall|other: K| #[trigger]
                    final(set)@.contains(other) ==> vstd::std_specs::cmp::OrdSpec::cmp_spec(
                        &k,
                        &other,
                    ) is Less
            },
            None => old(set)@.is_empty() && final(set)@ == old(set)@,
        },
{
    set.pop_first()
}
/// The entries of a map, taken out of it.
pub fn into_entries<K: Ord, V>(map: BTreeMap<K, V>) -> (rows: Vec<(K, V)>)
    ensures
        lawful_key::<K>() ==> lists_map(rows@, map@),
{
    let count: usize = map.len();
    let ghost all = map@;
    let mut rest = map;
    let mut rows: Vec<(K, V)> = Vec::new();
    for done in 0..count
        invariant
            lawful_key::<K>() ==> {
                &&& all.dom().finite()
                &&& all.dom().len() == count
                &&& rest@.dom().len() == count - done
                &&& rows@.len() == done
                &&& forall|k: K| #[trigger]
                    rest@.contains_key(k) ==> all.contains_key(k) && rest@[k] == all[k]
                &&& forall|i: int|
                    #![trigger rows@[i]]
                    0 <= i < done ==> {
                        &&& all.contains_key(rows@[i].0)
                        &&& all[rows@[i].0] == rows@[i].1
                        &&& !rest@.contains_key(rows@[i].0)
                    }
                &&& forall|k: K| #[trigger]
                    all.contains_key(k) ==> rest@.contains_key(k) || exists|i: int|
                        0 <= i < done && (#[trigger] rows@[i]).0 == k
                &&& forall|i: int, j: int|
                    #![trigger rows@[i], rows@[j]]
                    0 <= i < j < done ==> rows@[i].0 != rows@[j].0
            },
    {
        let ghost before = rows@;
        match take_first_entry(&mut rest) {
            Some(row) => {
                rows.push(row);
                assert(lawful_key::<K>() ==> forall|i: int|
                    0 <= i < done ==> #[trigger] rows@[i] == before[i]);
                assert(lawful_key::<K>() ==> rows@[done as int] == row);
            },
            None => {},
        }
        proof {
            if lawful_key::<K>() {
                assert forall|k: K| #[trigger] all.contains_key(k) implies rest@.contains_key(k)
                    || exists|i: int| 0 <= i < done + 1 && (#[trigger] rows@[i]).0 == k by {
                    if exists|i: int| 0 <= i < done && (#[trigger] before[i]).0 == k {
                        let i = choose|i: int| 0 <= i < done && (#[trigger] before[i]).0 == k;
                        assert(rows@[i].0 == k);
                    }
                }
            }
        }
    }
    rows
}

/// The elements of a set, taken out of it.
pub fn into_elements<K: Ord>(set: BTreeSet<K>) -> (rows: Vec<K>)
    ensures
        lawful_key::<K>() ==> lists_set(rows@, set@),
{
    let count: usize = set.len();
    let ghost all = set@;
    proof {
        set_is_finite(&set);
    }
    let mut rest = set;
    let mut rows: Vec<K> = Vec::new();
    for done in 0..count
        invariant
            lawful_key::<K>() ==> {
                &&& all.len() == count
                &&& rest@.len() == count - done
                &&& rest@.finite()
                &&& rows@.len() == done
                &&& rest@.subset_of(all)
                &&& forall|i: int|
                    #![trigger rows@[i]]
                    0 <= i < done ==> all.contains(rows@[i]) && !rest@.contains(rows@[i])
                &&& forall|k: K| #[trigger]
                    all.contains(k) ==> rest@.contains(k) || exists|i: int|
                        0 <= i < done && #[trigger] rows@[i] == k
                &&& forall|i: int, j: int|
                    #![trigger rows@[i], rows@[j]]
                    0 <= i < j < done ==> rows@[i] != rows@[j]
            },
    {
        let ghost before = rows@;
        match take_first_element(&mut rest) {
            Some(row) => {
                rows.push(row);
                assert(lawful_key::<K>() ==> forall|i: int|
                    0 <= i < done ==> #[trigger] rows@[i] == before[i]);
                assert(lawful_key::<K>() ==> rows@[done as int] == row);
            },
            None => {},
        }
        proof {
            if lawful_key::<K>() {
                assert forall|k: K| #[trigger] all.contains(k) implies rest@.contains(k)
                    || exists|i: int| 0 <= i < done + 1 && #[trigger] rows@[i] == k by {
                    if exists|i: int| 0 <= i < done && #[trigger] before[i] == k {
                        let i = choose|i: int| 0 <= i < done && #[trigger] before[i] == k;
                        assert(rows@[i] == k);
                    }
                }
            }
        }
    }
    rows
}

/// Whether every element of `a` is in `b`.
pub fn is_subset<K: Ord>(a: &BTreeSet<K>, b: &BTreeSet<K>) -> (result: bool)
    ensures
        lawful_key::<K>() ==> result == a@.subset_of(b@),
{
    let rows = set_elements(a);
    let ghost listed = rows@.unref();
    for i in 0..rows.len()
        invariant
            listed == rows@.unref(),
            lawful_key::<K>() ==> lists_set(listed, a@),
            lawful_key::<K>() ==> forall|j: int| 0 <= j < i ==> b@.contains(#[trigger] listed[j]),
    {
        assert(listed[i as int] == *rows@[i as int]);
        if !b.contains(rows[i]) {
            return false;
        }
    }
    true
}

/// Adds the elements of `b` to `a`.
pub fn add_all<K: Ord>(a: &mut BTreeSet<K>, b: BTreeSet<K>)
    ensures
        lawful_key::<K>() ==> final(a)@ == old(a)@.union(b@),
{
    let ghost start = a@;
    let ghost added = b@;
    let rows = into_elements(b);
    for row in iter: rows
        invariant
            lawful_key::<K>() ==> lists_set(iter.seq(), added),
            lawful_key::<K>() ==> forall|k: K| #[trigger]
                a@.contains(k) <==> start.contains(k) || exists|j: int|
                    0 <= j < iter.index() && #[trigger] iter.seq()[j] == k,
    {
        a.insert(row);
    }
    assert(lawful_key::<K>() ==> a@ =~= start.union(added));
}

/// Takes the elements of `b` out of `a`.
pub fn remove_all<K: Ord>(a: &mut BTreeSet<K>, b: &BTreeSet<K>)
    ensures
        lawful_key::<K>() ==> final(a)@ == old(a)@.difference(b@),
{
    let ghost start = a@;
    let rows = set_elements(b);
    let ghost listed = rows@.unref();
    for i in 0..rows.len()
        invariant
            listed == rows@.unref(),
            lawful_key::<K>() ==> lists_set(listed, b@),
            lawful_key::<K>() ==> forall|k: K| #[trigger]
                a@.contains(k) <==> start.contains(k) && !(exists|j: int|
                    0 <= j < i && #[trigger] listed[j] == k),
    {
        assert(listed[i as int] == *rows@[i as int]);
        a.remove(rows[i]);
    }
    assert(lawful_key::<K>() ==> a@ =~= start.difference(b@));
}

/// A copy of a list of plain values.
pub fn copy_all<T: Copy>(list: &Vec<T>) -> (copy: Vec<T>)
    ensures
        copy@ == list@,
{
    let mut copy: Vec<T> = Vec::new();
    for i in 0..list.len()
        invariant
            copy@ == list@.take(i as int),
    {
        copy.push(list[i]);
        assert(copy@ =~= list@.take(i + 1));
    }
    assert(list@.take(list@.len() as int) =~= list@);
    copy
}

/// What lists a set has its elements, each once, and no others.
pub proof fn listed_set_is_the_set<K>(rows: Seq<K>, set: Set<K>)
    requires
        lists_set(rows, set),
    ensures
        rows.no_duplicates(),
        rows.to_set() == set,
        rows.len() == set.len(),
{
    assert(rows.to_set() =~= set) by {
        assert forall|k: K| set.contains(k) implies rows.to_set().contains(k) by {
            let i = choose|i: int| 0 <= i < rows.len() && #[trigger] rows[i] == k;
            assert(rows.contains(rows[i]));
        }
    }
}

/// What lists a map has its entries, each key once, and no others.
pub proof fn listed_map_is_the_map<K, V>(rows: Seq<(K, V)>, map: Map<K, V>)
    requires
        lists_map(rows, map),
    ensures
        rows.len() == map.dom().len(),
        forall|k: K| #[trigger] map.contains_key(k) ==> rows.contains((k, map[k])),
        forall|k: K, v: V| #[trigger]
            rows.contains((k, v)) ==> map.contains_key(k) && map[k] == v,
        rows.map_values(|row: (K, V)| row.0).no_duplicates(),
{
    assert forall|k: K| #[trigger] map.contains_key(k) implies rows.contains((k, map[k])) by {
        let i = choose|i: int| 0 <= i < rows.len() && (#[trigger] rows[i]).0 == k;
        assert(rows[i] == (k, map[k]));
    }
    let keys = rows.map_values(|row: (K, V)| row.0);
    assert forall|i: int, j: int| 0 <= i < keys.len() && 0 <= j < keys.len() && i != j implies
        keys[i] != keys[j] by {
        assert(keys[i] == rows[i].0 && keys[j] == rows[j].0);
    }
}

/// Equality of clones and of values, and the order of keys, are those of the values themselves.
pub proof fn exactness<T: Clone + PartialEq, K: Ord>(a: T, b: T)
    ensures
        exact_clone::<T>() && cloned(a, b) ==> a == b,
        (forall|x: T, y: T| #[trigger] cloned(x, y) ==> x == y) ==> exact_clone::<T>(),
        lawful_key::<K>() <==> vstd::laws_cmp::obeys_cmp::<K>(),
        exact_eq::<T>() <==> vstd::laws_eq::obeys_concrete_eq::<T>(),
{
}

} // verus!

//! Two-Phase Set (2PSet) CRDT.
//!
//! Extends [`GSet`] by allowing removal. Once removed, an element can never be re-added.
use super::gset::GSet;
use crate::collections::{lawful_key, remove_all};
use crate::traits::Crdt;
use std::collections::BTreeSet;
use vstd::prelude::*;

verus! {

/// A set that supports both add and remove, but removal is permanent.
///
/// Internally composed of two [`GSet`]s: one tracking additions, one tracking removals. An
/// element is in the set if it has been added and not removed.
#[derive(Debug, PartialEq)]
pub struct TwoPSet<T> where T: Ord + Clone {
    pub added: GSet<T>,
    pub removed: GSet<T>,
}

/// The elements that were ever added, and those that were ever removed.
#[verifier::reject_recursive_types(T)]
pub struct Phases<T> {
    pub added: Set<T>,
    pub removed: Set<T>,
}

impl<T> Phases<T> {
    /// The elements that are in the set.
    pub open spec fn present(self) -> Set<T> {
        self.added.difference(self.removed)
    }
}

impl<T> View for TwoPSet<T> where T: Ord + Clone {
    type V = Phases<T>;

    open spec fn view(&self) -> Phases<T> {
        Phases { added: self.added@, removed: self.removed@ }
    }
}

impl<T> Clone for TwoPSet<T> where T: Ord + Clone {
    fn clone(&self) -> (copy: Self)
        ensures
            copy@ == self@,
    {
        TwoPSet { added: self.added.clone(), removed: self.removed.clone() }
    }
}

impl<T> Default for TwoPSet<T> where T: Ord + Clone {
    fn default() -> (set: Self)
        ensures
            set@ == (Phases { added: Set::<T>::empty(), removed: Set::<T>::empty() }),
    {
        TwoPSet { added: GSet::new(), removed: GSet::new() }
    }
}

impl<T> TwoPSet<T> where T: Ord + Clone {
    /// Creates an empty TwoPSet.
    pub fn new() -> (set: Self)
        ensures
            set@ == (Phases { added: Set::<T>::empty(), removed: Set::<T>::empty() }),
    {
        Self::default()
    }

    /// Adds an element to the set. Returns whether it is new.
    ///
    /// If the element has been previously removed, the add is ignored. Removal is permanent in a
    /// TwoPSet.
    pub fn insert(&mut self, element: T) -> (added: bool)
        ensures
            lawful_key::<T>() ==> added == (!old(self)@.removed.contains(element)
                && !old(self)@.added.contains(element)),
            lawful_key::<T>() ==> final(self)@.removed == old(self)@.removed,
            lawful_key::<T>() ==> final(self)@.added == if old(self)@.removed.contains(element) {
                old(self)@.added
            } else {
                old(self)@.added.insert(element)
            },
    {
        if self.removed.contains(&element) {
            return false;
        }
        self.added.insert(element)
    }

    /// Removes an element from the set permanently.
    ///
    /// Returns `true` if the element was present before removal. Once removed, the element can
    /// never be re-added.
    pub fn remove(&mut self, element: T) -> (was_present: bool)
        ensures
            lawful_key::<T>() ==> was_present == old(self)@.present().contains(element),
            lawful_key::<T>() ==> final(self)@.added == old(self)@.added,
            lawful_key::<T>() ==> final(self)@.removed == if old(self)@.added.contains(element) {
                old(self)@.removed.insert(element)
            } else {
                old(self)@.removed
            },
    {
        if self.added.contains(&element) {
            return self.removed.insert(element);
        }
        false
    }

    /// Returns `true` if the element is in the set: added, and not removed.
    pub fn contains(&self, element: &T) -> (found: bool)
        ensures
            lawful_key::<T>() ==> found == self@.present().contains(*element),
    {
        self.added.contains(element) && !self.removed.contains(element)
    }
}

/// Removal is permanent and wins over adds: an element that either side of a merge has removed
/// is not in the merged set.
pub proof fn removal_wins<T: Ord + Clone>(a: Phases<T>, b: Phases<T>, element: T)
    requires
        a.removed.contains(element) || b.removed.contains(element),
    ensures
        !TwoPSet::<T>::join(a, b).present().contains(element),
        TwoPSet::<T>::join(a, b).removed.contains(element),
{
}

impl<T> Crdt for TwoPSet<T> where T: Ord + Clone {
    type Value = BTreeSet<T>;

    open spec fn lawful() -> bool {
        lawful_key::<T>()
    }

    open spec fn same(a: Phases<T>, b: Phases<T>) -> bool {
        a == b
    }

    open spec fn join(a: Phases<T>, b: Phases<T>) -> Phases<T> {
        Phases { added: a.added.union(b.added), removed: a.removed.union(b.removed) }
    }

    open spec fn below(a: Phases<T>, b: Phases<T>) -> bool {
        a.added.subset_of(b.added) && a.removed.subset_of(b.removed)
    }

    /// What was removed had been added.
    open spec fn valid(a: Phases<T>) -> bool {
        a.removed.subset_of(a.added)
    }

    open spec fn agree(a: Phases<T>, b: Phases<T>) -> bool {
        true
    }

    open spec fn survives(a: Phases<T>, b: Phases<T>) -> bool {
        true
    }

    open spec fn adds_only(a: Phases<T>, b: Phases<T>) -> bool {
        true
    }

    open spec fn regroupable(a: Phases<T>, b: Phases<T>, c: Phases<T>) -> bool {
        true
    }

    open spec fn readable(a: Phases<T>) -> bool {
        true
    }

    open spec fn reads(a: Phases<T>, value: BTreeSet<T>) -> bool {
        value@ == a.present()
    }

    fn replica(&self) -> (copy: Self) {
        self.clone()
    }

    /// Returns the set of elements that have been added but not removed.
    fn value(&self) -> (value: BTreeSet<T>) {
        let mut value = self.added.value();
        remove_all(&mut value, &self.removed.elements);
        value
    }

    /// Merges by merging both inner GSets independently.
    fn merge(&mut self, other: Self) {
        self.added.merge(other.added);
        self.removed.merge(other.removed);
    }

    /// Returns `true` if both the added and removed sets of `self` are subsets of `other`'s two
    /// sets.
    fn compare(&self, other: &Self) -> (included: bool) {
        self.added.compare(&other.added) && self.removed.compare(&other.removed)
    }

    proof fn merge_commutative(a: Phases<T>, b: Phases<T>) {
        assert(a.added.union(b.added) =~= b.added.union(a.added));
        assert(a.removed.union(b.removed) =~= b.removed.union(a.removed));
    }

    proof fn merge_associative(a: Phases<T>, b: Phases<T>, c: Phases<T>) {
        assert(a.added.union(b.added).union(c.added) =~= a.added.union(b.added.union(c.added)));
        assert(a.removed.union(b.removed).union(c.removed) =~= a.removed.union(
            b.removed.union(c.removed),
        ));
    }

    proof fn merge_idempotent(a: Phases<T>) {
        assert(a.added.union(a.added) =~= a.added);
        assert(a.removed.union(a.removed) =~= a.removed);
    }

    proof fn merge_keeps_valid(a: Phases<T>, b: Phases<T>) {
    }

    proof fn merge_includes(a: Phases<T>, b: Phases<T>) {
    }

    proof fn compare_reflexive(a: Phases<T>) {
    }

    proof fn compare_transitive(a: Phases<T>, b: Phases<T>, c: Phases<T>) {
    }

    proof fn compare_means_included(a: Phases<T>, b: Phases<T>) {
        assert(a.added.union(b.added) =~= b.added);
        assert(a.removed.union(b.removed) =~= b.removed);
    }
}

/// Adds and removals keep what was removed among what was added, and a removed element is gone.
pub proof fn updates_keep_valid<T: Ord + Clone>(a: Phases<T>, element: T)
    requires
        TwoPSet::<T>::valid(a),
    ensures
        TwoPSet::<T>::valid(Phases { added: a.added.insert(element), ..a }),
        a.added.contains(element) ==> TwoPSet::<T>::valid(
            Phases { removed: a.removed.insert(element), ..a },
        ),
        a.added.contains(element) ==> !(Phases {
            removed: a.removed.insert(element),
            ..a
        }).present().contains(element),
{
}

/// An element is in the set where it was added and not removed. A merge has what either side has
/// added, and what either side has removed.
pub proof fn merge_is_union_of_phases<T: Ord + Clone>(
    a: Phases<T>,
    b: Phases<T>,
    c: Phases<T>,
    value: BTreeSet<T>,
)
    ensures
        TwoPSet::<T>::lawful() <==> lawful_key::<T>(),
        forall|x: T| #[trigger]
            a.present().contains(x) <==> a.added.contains(x) && !a.removed.contains(x),
        forall|x: T| #[trigger]
            TwoPSet::<T>::join(a, b).added.contains(x) <==> a.added.contains(x)
                || b.added.contains(x),
        forall|x: T| #[trigger]
            TwoPSet::<T>::join(a, b).removed.contains(x) <==> a.removed.contains(x)
                || b.removed.contains(x),
        TwoPSet::<T>::below(a, b) <==> (forall|x: T| #[trigger]
            a.added.contains(x) ==> b.added.contains(x)) && (forall|x: T| #[trigger]
            a.removed.contains(x) ==> b.removed.contains(x)),
        TwoPSet::<T>::reads(a, value) <==> value@ == a.added.difference(a.removed),
        TwoPSet::<T>::same(a, b) <==> a == b,
        TwoPSet::<T>::valid(a) <==> forall|x: T| #[trigger]
            a.removed.contains(x) ==> a.added.contains(x),
        TwoPSet::<T>::readable(a),
        TwoPSet::<T>::agree(a, b),
        TwoPSet::<T>::survives(a, b),
        TwoPSet::<T>::adds_only(a, b),
        TwoPSet::<T>::regroupable(a, b, c),
{
}

} // verus!

//! Grow-only Set (GSet) CRDT.
//!
//! The simplest set CRDT. Elements can be added but never removed. Merge is set union. Serves as
//! a building block for [`TwoPSet`](super::TwoPSet).
use crate::collections::{add_all, is_subset, lawful_key};
use crate::traits::Crdt;
use std::collections::BTreeSet;
use vstd::prelude::*;

verus! {

/// A grow-only set where elements can be added but never removed. Merge is set union,
/// guaranteeing convergence across peers.
///
/// Peer A: {"milk", "bread"} and peer B: {"milk", "eggs"} give the union
/// {"milk", "bread", "eggs"}.
#[derive(Debug, PartialEq)]
pub struct GSet<T> where T: Ord + Clone {
    pub elements: BTreeSet<T>,
}

impl<T> View for GSet<T> where T: Ord + Clone {
    type V = Set<T>;

    open spec fn view(&self) -> Set<T> {
        self.elements@
    }
}

impl<T> Clone for GSet<T> where T: Ord + Clone {
    fn clone(&self) -> (copy: Self)
        ensures
            copy@ == self@,
    {
        GSet { elements: self.elements.clone() }
    }
}

impl<T> Default for GSet<T> where T: Ord + Clone {
    fn default() -> (set: Self)
        ensures
            set@ == Set::<T>::empty(),
    {
        GSet { elements: BTreeSet::new() }
    }
}

impl<T> GSet<T> where T: Ord + Clone {
    /// Creates an empty GSet.
    pub fn new() -> (set: Self)
        ensures
            set@ == Set::<T>::empty(),
    {
        Self::default()
    }

    /// Adds an element to the set. Duplicate inserts are ignored: returns whether the element
    /// is new.
    pub fn insert(&mut self, element: T) -> (added: bool)
        ensures
            lawful_key::<T>() ==> added == !old(self)@.contains(element),
            lawful_key::<T>() ==> final(self)@ == old(self)@.insert(element),
    {
        self.elements.insert(element)
    }

    /// Returns `true` if the set contains the element.
    pub fn contains(&self, element: &T) -> (found: bool)
        ensures
            lawful_key::<T>() ==> found == self@.contains(*element),
    {
        self.elements.contains(element)
    }
}

impl<T> Crdt for GSet<T> where T: Ord + Clone {
    type Value = BTreeSet<T>;

    open spec fn lawful() -> bool {
        lawful_key::<T>()
    }

    open spec fn same(a: Set<T>, b: Set<T>) -> bool {
        a == b
    }

    open spec fn join(a: Set<T>, b: Set<T>) -> Set<T> {
        a.union(b)
    }

    open spec fn below(a: Set<T>, b: Set<T>) -> bool {
        a.subset_of(b)
    }

    open spec fn valid(a: Set<T>) -> bool {
        true
    }

    open spec fn agree(a: Set<T>, b: Set<T>) -> bool {
        true
    }

    open spec fn survives(a: Set<T>, b: Set<T>) -> bool {
        true
    }

    open spec fn adds_only(a: Set<T>, b: Set<T>) -> bool {
        true
    }

    open spec fn regroupable(a: Set<T>, b: Set<T>, c: Set<T>) -> bool {
        true
    }

    open spec fn readable(a: Set<T>) -> bool {
        true
    }

    open spec fn reads(a: Set<T>, value: BTreeSet<T>) -> bool {
        value@ == a
    }

    fn replica(&self) -> (copy: Self) {
        self.clone()
    }

    /// Returns the current set of elements.
    fn value(&self) -> (value: BTreeSet<T>)
        ensures
            value@ == self@,
    {
        self.elements.clone()
    }

    /// Merges another GSet into this one by taking the union.
    fn merge(&mut self, other: Self) {
        add_all(&mut self.elements, other.elements);
    }

    /// Returns `true` if every element in `self` is also in `other`.
    fn compare(&self, other: &Self) -> (included: bool) {
        is_subset(&self.elements, &other.elements)
    }

    proof fn merge_commutative(a: Set<T>, b: Set<T>) {
        assert(a.union(b) =~= b.union(a));
    }

    proof fn merge_associative(a: Set<T>, b: Set<T>, c: Set<T>) {
        assert(a.union(b).union(c) =~= a.union(b.union(c)));
    }

    proof fn merge_idempotent(a: Set<T>) {
        assert(a.union(a) =~= a);
    }

    proof fn merge_keeps_valid(a: Set<T>, b: Set<T>) {
    }

    proof fn merge_includes(a: Set<T>, b: Set<T>) {
    }

    proof fn compare_reflexive(a: Set<T>) {
    }

    proof fn compare_transitive(a: Set<T>, b: Set<T>, c: Set<T>) {
    }

    proof fn compare_means_included(a: Set<T>, b: Set<T>) {
        assert(a.union(b) =~= b);
    }
}

/// A merge has the elements of both sides and no others; a set is part of another where the other
/// has all its elements; and what is read of a set is its elements.
pub proof fn merge_is_union<T: Ord + Clone>(a: Set<T>, b: Set<T>, c: Set<T>, value: BTreeSet<T>)
    ensures
        GSet::<T>::lawful() <==> lawful_key::<T>(),
        forall|x: T| #[trigger]
            GSet::<T>::join(a, b).contains(x) <==> a.contains(x) || b.contains(x),
        GSet::<T>::below(a, b) <==> forall|x: T| #[trigger] a.contains(x) ==> b.contains(x),
        GSet::<T>::reads(a, value) <==> forall|x: T| #[trigger] value@.contains(x) <==> a.contains(
            x,
        ),
        GSet::<T>::same(a, b) <==> a == b,
        GSet::<T>::readable(a),
        GSet::<T>::valid(a),
        GSet::<T>::agree(a, b),
        GSet::<T>::survives(a, b),
        GSet::<T>::adds_only(a, b),
        GSet::<T>::regroupable(a, b, c),
{
    if forall|x: T| #[trigger] value@.contains(x) <==> a.contains(x) {
        assert(value@ =~= a);
    }
}

/// Sets of numbers are lawful.
pub proof fn number_sets_are_lawful()
    ensures
        lawful_key::<u64>(),
        lawful_key::<u128>(),
        lawful_key::<(u128, u64)>(),
        lawful_key::<(u8, u8)>(),
        lawful_key::<(u8, u8, u8, u8)>(),
{
}

} // verus!

//! Last-Writer-Wins Register (LWWRegister) CRDT.
//!
//! Stores a single value with a timestamp. Concurrent writes are resolved by highest timestamp,
//! with `node_id` as tiebreaker for equal timestamps.
use crate::collections::exact_clone;
use crate::traits::{Crdt, DeltaCrdt};
use crate::NodeId;
use vstd::prelude::*;

verus! {

/// Last-Writer-Wins Register.
///
/// Each write carries a timestamp and node ID. On merge, the write with the highest timestamp
/// wins. Equal timestamps are broken by comparing node IDs (higher UUID wins), ensuring
/// deterministic convergence.
#[derive(Debug, PartialEq)]
pub struct LWWRegister<T> {
    pub value: T,
    pub timestamp: u64,
    pub node_id: NodeId,
}

/// A register is modelled by the write that it holds.
impl<T> View for LWWRegister<T> {
    type V = LWWRegister<T>;

    open spec fn view(&self) -> LWWRegister<T> {
        *self
    }
}

impl<T: Clone> Clone for LWWRegister<T> {
    fn clone(&self) -> (copy: Self)
        ensures
            copy.timestamp == self.timestamp,
            copy.node_id == self.node_id,
            cloned(self.value, copy.value),
            exact_clone::<T>() ==> copy == *self,
    {
        let copy = LWWRegister {
            value: self.value.clone(),
            timestamp: self.timestamp,
            node_id: self.node_id,
        };
        assert(cloned(self.value, copy.value));
        copy
    }
}

/// Stamps are ordered by time, then by node.
pub open spec fn stamp_exceeds(a: (u64, NodeId), b: (u64, NodeId)) -> bool {
    a.0 > b.0 || (a.0 == b.0 && a.1 > b.1)
}

impl<T> LWWRegister<T> {
    /// The stamp of the write that the register holds.
    pub open spec fn stamp(self) -> (u64, NodeId) {
        (self.timestamp, self.node_id)
    }
}

impl<T: Clone + PartialEq> LWWRegister<T> {
    /// A register that holds one write.
    pub fn new(value: T, timestamp: u64, node_id: NodeId) -> (register: Self)
        ensures
            register == (LWWRegister { value, timestamp, node_id }),
    {
        LWWRegister { value, timestamp, node_id }
    }

    /// Returns true if `other` would replace `self` in a merge.
    fn is_superseded_by(&self, other: &Self) -> (superseded: bool)
        ensures
            superseded == stamp_exceeds(other.stamp(), self.stamp()),
    {
        other.timestamp > self.timestamp || (other.timestamp == self.timestamp && other.node_id
            > self.node_id)
    }

    /// Updates the register value if the new write wins. Returns `true` if the value was
    /// updated, `false` if the existing value has a higher or equal stamp.
    pub fn set(&mut self, value: T, timestamp: u64, node_id: NodeId) -> (updated: bool)
        ensures
            updated == stamp_exceeds((timestamp, node_id), old(self).stamp()),
            *final(self) == Self::join(
                *old(self),
                (LWWRegister { value, timestamp, node_id }),
            ),
    {
        let incoming = LWWRegister::new(value, timestamp, node_id);
        if self.is_superseded_by(&incoming) {
            *self = incoming;
            return true;
        }
        false
    }

    /// The time of the write.
    pub fn timestamp(&self) -> (timestamp: u64)
        ensures
            timestamp == self.timestamp,
    {
        self.timestamp
    }

    /// The node that wrote.
    pub fn node_id(&self) -> (node_id: NodeId)
        ensures
            node_id == self.node_id,
    {
        self.node_id
    }
}

/// A merge keeps the value of the higher stamp; where the stamps are equal, the one it had.
pub proof fn higher_stamp_wins<T: Clone + PartialEq>(a: LWWRegister<T>, b: LWWRegister<T>)
    ensures
        stamp_exceeds(a.stamp(), b.stamp()) ==> LWWRegister::join(a, b) == a && LWWRegister::join(
            b,
            a,
        ) == a,
        a.timestamp > b.timestamp ==> stamp_exceeds(a.stamp(), b.stamp()),
        a.timestamp == b.timestamp && a.node_id > b.node_id ==> stamp_exceeds(
            a.stamp(),
            b.stamp(),
        ),
        a.stamp() == b.stamp() || stamp_exceeds(a.stamp(), b.stamp()) || stamp_exceeds(
            b.stamp(),
            a.stamp(),
        ),
{
}

/// Where `compare` holds, merging `self` into `other` does not change `other`, whatever the
/// values are.
pub proof fn compare_means_no_change<T: Clone + PartialEq>(a: LWWRegister<T>, b: LWWRegister<T>)
    requires
        LWWRegister::below(a, b),
    ensures
        LWWRegister::join(b, a) == b,
{
}

impl<T: Clone + PartialEq> Crdt for LWWRegister<T> {
    type Value = T;

    open spec fn lawful() -> bool {
        exact_clone::<T>()
    }

    open spec fn same(a: LWWRegister<T>, b: LWWRegister<T>) -> bool {
        a == b
    }

    open spec fn join(a: LWWRegister<T>, b: LWWRegister<T>) -> LWWRegister<T> {
        if stamp_exceeds(b.stamp(), a.stamp()) {
            b
        } else {
            a
        }
    }

    open spec fn below(a: LWWRegister<T>, b: LWWRegister<T>) -> bool {
        !stamp_exceeds(a.stamp(), b.stamp())
    }

    open spec fn valid(a: LWWRegister<T>) -> bool {
        true
    }

    open spec fn agree(a: LWWRegister<T>, b: LWWRegister<T>) -> bool {
        a.stamp() == b.stamp() ==> a.value == b.value
    }

    open spec fn survives(a: LWWRegister<T>, b: LWWRegister<T>) -> bool {
        true
    }

    open spec fn adds_only(a: LWWRegister<T>, b: LWWRegister<T>) -> bool {
        true
    }

    open spec fn regroupable(
        a: LWWRegister<T>,
        b: LWWRegister<T>,
        c: LWWRegister<T>,
    ) -> bool {
        true
    }

    open spec fn readable(a: LWWRegister<T>) -> bool {
        true
    }

    open spec fn reads(a: LWWRegister<T>, value: T) -> bool {
        value == a.value
    }

    fn replica(&self) -> (copy: Self) {
        self.clone()
    }

    fn value(&self) -> (value: T)
        ensures
            cloned(self.value, value),
    {
        let value = self.value.clone();
        assert(cloned(self.value, value));
        value
    }

    /// Higher timestamp wins; equal timestamp -> higher `node_id` wins.
    fn merge(&mut self, other: Self)
        ensures
            *final(self) == Self::join(*old(self), other),
    {
        if self.is_superseded_by(&other) {
            *self = other;
        }
    }

    /// Returns `true` if `self` is dominated by or equal to `other`.
    ///
    /// When `true`, merging `self` into `other` would not change `other`. For LWWRegister this
    /// means `other` has a higher timestamp, or equal timestamp with a higher or equal node_id.
    fn compare(&self, other: &Self) -> (included: bool)
        ensures
            included == Self::below(*self, *other),
    {
        !other.is_superseded_by(self)
    }

    proof fn merge_commutative(a: LWWRegister<T>, b: LWWRegister<T>) {
    }

    proof fn merge_associative(a: LWWRegister<T>, b: LWWRegister<T>, c: LWWRegister<T>) {
    }

    proof fn merge_idempotent(a: LWWRegister<T>) {
    }

    proof fn merge_keeps_valid(a: LWWRegister<T>, b: LWWRegister<T>) {
    }

    proof fn merge_includes(a: LWWRegister<T>, b: LWWRegister<T>) {
    }

    proof fn compare_reflexive(a: LWWRegister<T>) {
    }

    proof fn compare_transitive(a: LWWRegister<T>, b: LWWRegister<T>, c: LWWRegister<T>) {
    }

    proof fn compare_means_included(a: LWWRegister<T>, b: LWWRegister<T>) {
    }
}

impl<T: Clone + PartialEq> DeltaCrdt for LWWRegister<T> {
    /// `Some(self)` iff this register would supersede the receiver's known
    /// `(timestamp, node_id)`; `None` otherwise (receiver is already at or past this register).
    type Delta = Option<LWWRegister<T>>;

    /// `(0, 0)` represents "receiver knows no register yet", any register dominates that.
    type Version = (u64, NodeId);

    type DeltaModel = Option<LWWRegister<T>>;

    type VersionModel = (u64, NodeId);

    open spec fn delta_model(delta: Option<LWWRegister<T>>) -> Option<LWWRegister<T>> {
        delta
    }

    open spec fn version_model(version: (u64, NodeId)) -> (u64, NodeId) {
        version
    }

    open spec fn version_of(a: LWWRegister<T>) -> (u64, NodeId) {
        a.stamp()
    }

    open spec fn delta_of(a: LWWRegister<T>, since: (u64, NodeId)) -> Option<LWWRegister<T>> {
        if since == (0u64, 0u128) || stamp_exceeds(a.stamp(), since) {
            Some(a)
        } else {
            None
        }
    }

    open spec fn absorb(a: LWWRegister<T>, delta: Option<LWWRegister<T>>) -> LWWRegister<T> {
        match delta {
            Some(other) => Self::join(a, other),
            None => a,
        }
    }

    open spec fn vacuous(delta: Option<LWWRegister<T>>) -> bool {
        delta is None
    }

    /// The register was not written at time zero by the nil node: that version stands for no
    /// register.
    open spec fn is_versioned(a: LWWRegister<T>) -> bool {
        a.stamp() != (0u64, 0u128)
    }

    open spec fn covers(current: (u64, NodeId), other: (u64, NodeId)) -> bool {
        !stamp_exceeds(other, current)
    }

    open spec fn bridges(
        sender: LWWRegister<T>,
        since: (u64, NodeId),
        receiver: LWWRegister<T>,
    ) -> bool {
        true
    }

    open spec fn delta_agree(
        d: Option<LWWRegister<T>>,
        e: Option<LWWRegister<T>>,
    ) -> bool {
        match (d, e) {
            (Some(x), Some(y)) => Self::agree(x, y),
            _ => true,
        }
    }

    open spec fn delta_valid(d: Option<LWWRegister<T>>) -> bool {
        true
    }

    fn copy_version(version: &(u64, NodeId)) -> (copy: (u64, NodeId)) {
        *version
    }

    fn version(&self) -> (version: (u64, NodeId)) {
        (self.timestamp, self.node_id)
    }

    fn delta_since(&self, since: &(u64, NodeId)) -> (delta: Option<LWWRegister<T>>) {
        let (since_ts, since_node) = *since;
        let knows_none = since_ts == 0 && since_node == 0;
        let exceeds = self.timestamp > since_ts || (self.timestamp == since_ts && self.node_id
            > since_node);
        if knows_none || exceeds {
            Some(self.clone())
        } else {
            None
        }
    }

    fn merge_delta(&mut self, delta: Option<LWWRegister<T>>)
        ensures
            *final(self) == Self::absorb(*old(self), delta),
    {
        if let Some(other) = delta {
            self.merge(other);
        }
    }

    fn is_empty_delta(delta: &Option<LWWRegister<T>>) -> (empty: bool) {
        delta.is_none()
    }

    /// `(ts, node)` is included when `current` is at least as recent as `other` under the same
    /// lex order LWW uses for tiebreaks.
    fn version_includes(current: &(u64, NodeId), other: &(u64, NodeId)) -> (included: bool) {
        let (cur_ts, cur_node) = *current;
        let (oth_ts, oth_node) = *other;
        cur_ts > oth_ts || (cur_ts == oth_ts && cur_node >= oth_node)
    }

    proof fn delta_catches_up(
        sender: LWWRegister<T>,
        since: (u64, NodeId),
        receiver: LWWRegister<T>,
    ) {
    }

    proof fn delta_is_merge(
        sender: LWWRegister<T>,
        since: (u64, NodeId),
        receiver: LWWRegister<T>,
    ) {
    }

    proof fn delta_commutative(
        a: LWWRegister<T>,
        d: Option<LWWRegister<T>>,
        e: Option<LWWRegister<T>>,
    ) {
    }

    proof fn delta_idempotent(a: LWWRegister<T>, d: Option<LWWRegister<T>>) {
    }

    proof fn delta_keeps_valid(a: LWWRegister<T>, d: Option<LWWRegister<T>>) {
    }

    proof fn delta_of_is_valid(a: LWWRegister<T>, since: (u64, NodeId)) {
    }

    proof fn empty_delta_changes_nothing(a: LWWRegister<T>, d: Option<LWWRegister<T>>) {
    }

    proof fn delta_since_own_version_is_empty(a: LWWRegister<T>) {
    }

    proof fn version_includes_itself(v: (u64, NodeId)) {
    }

    proof fn version_includes_transitive(
        u: (u64, NodeId),
        v: (u64, NodeId),
        w: (u64, NodeId),
    ) {
    }

    proof fn merge_advances_version(a: LWWRegister<T>, b: LWWRegister<T>) {
    }
}

/// Of two writes the later one is kept; of two at the same time, that of the higher node; and where
/// these are the same, too, the one that was there. That a write is part of another, wins over it,
/// or is beyond a version goes by the same order. A receiver that has no register yet is at time
/// zero of the nil node, and is sent any.
pub proof fn last_writer_wins<T: Clone + PartialEq>(
    a: LWWRegister<T>,
    b: LWWRegister<T>,
    c: LWWRegister<T>,
    since: (u64, NodeId),
    delta: Option<LWWRegister<T>>,
    value: T,
)
    ensures
        ({
            let later = b.timestamp > a.timestamp || (b.timestamp == a.timestamp && b.node_id
                > a.node_id);
            &&& LWWRegister::join(a, b) == if later {
                b
            } else {
                a
            }
            &&& LWWRegister::absorb(a, Some(b)) == if later {
                b
            } else {
                a
            }
            &&& stamp_exceeds((b.timestamp, b.node_id), (a.timestamp, a.node_id)) <==> later
            &&& LWWRegister::below(b, a) <==> !later
        }),
        LWWRegister::absorb(a, None) == a,
        LWWRegister::version_of(a) == (a.timestamp, a.node_id),
        a.stamp() == (a.timestamp, a.node_id),
        LWWRegister::delta_of(a, since) == if since == (0u64, 0u128) || a.timestamp > since.0 || (
        a.timestamp == since.0 && a.node_id > since.1) {
            Some(a)
        } else {
            None
        },
        LWWRegister::<T>::vacuous(delta) <==> delta is None,
        LWWRegister::<T>::covers(since, (a.timestamp, a.node_id)) <==> since.0 > a.timestamp || (
        since.0 == a.timestamp && since.1 >= a.node_id),
        LWWRegister::reads(a, value) <==> value == a.value,
        LWWRegister::same(a, b) <==> a == b,
        LWWRegister::<T>::lawful() <==> exact_clone::<T>(),
        LWWRegister::agree(a, b) <==> (a.timestamp == b.timestamp && a.node_id == b.node_id
            ==> a.value == b.value),
        LWWRegister::is_versioned(a) <==> a.timestamp != 0 || a.node_id != 0,
        LWWRegister::valid(a),
        LWWRegister::readable(a),
        LWWRegister::survives(a, b),
        LWWRegister::adds_only(a, b),
        LWWRegister::regroupable(a, b, c),
        LWWRegister::bridges(a, since, b),
        LWWRegister::<T>::delta_valid(delta),
{
}

/// Registers of numbers and pairs of numbers are lawful.
pub proof fn number_registers_are_lawful()
    ensures
        exact_clone::<u64>(),
        exact_clone::<u32>(),
        exact_clone::<u128>(),
{
}

} // verus!

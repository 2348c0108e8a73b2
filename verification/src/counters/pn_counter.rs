//! Positive-Negative counter.
//!
//! Two [`GCounter`]s: one for increments, one for decrements. Value = increments.value() -
//! decrements.value() (may be negative).
use super::g_counter::GCounter;
use crate::traits::{Crdt, DeltaCrdt};
use crate::NodeId;
use std::collections::BTreeMap;
use vstd::prelude::*;

verus! {

/// Positive-Negative counter. Supports both increment and decrement by composing two
/// [`GCounter`]s internally.
#[derive(Debug, PartialEq)]
pub struct PNCounter {
    pub increments: GCounter,
    pub decrements: GCounter,
}

/// Per-side counts: the model of a counter, of its deltas and of its versions.
pub struct Sides {
    pub increments: Map<NodeId, u64>,
    pub decrements: Map<NodeId, u64>,
}

/// Per-side counter delta.
#[derive(Debug, PartialEq)]
pub struct PNCounterDelta {
    pub increments: BTreeMap<NodeId, u64>,
    pub decrements: BTreeMap<NodeId, u64>,
}

/// Receiver-side version of a `PNCounter`: the two `GCounter` versions kept side by side.
#[derive(Debug, PartialEq)]
pub struct PNCounterVersion {
    pub increments: BTreeMap<NodeId, u64>,
    pub decrements: BTreeMap<NodeId, u64>,
}

impl View for PNCounter {
    type V = Sides;

    open spec fn view(&self) -> Sides {
        Sides { increments: self.increments@, decrements: self.decrements@ }
    }
}

impl View for PNCounterDelta {
    type V = Sides;

    open spec fn view(&self) -> Sides {
        Sides { increments: self.increments@, decrements: self.decrements@ }
    }
}

impl View for PNCounterVersion {
    type V = Sides;

    open spec fn view(&self) -> Sides {
        Sides { increments: self.increments@, decrements: self.decrements@ }
    }
}

impl Clone for PNCounter {
    fn clone(&self) -> (copy: Self)
        ensures
            copy@ == self@,
    {
        PNCounter { increments: self.increments.clone(), decrements: self.decrements.clone() }
    }
}

impl Clone for PNCounterDelta {
    fn clone(&self) -> (copy: Self)
        ensures
            copy@ == self@,
    {
        PNCounterDelta { increments: self.increments.clone(), decrements: self.decrements.clone() }
    }
}

impl Clone for PNCounterVersion {
    fn clone(&self) -> (copy: Self)
        ensures
            copy@ == self@,
    {
        PNCounterVersion {
            increments: self.increments.clone(),
            decrements: self.decrements.clone(),
        }
    }
}

impl Default for PNCounter {
    fn default() -> (counter: Self)
        ensures
            counter@ == no_counts(),
    {
        Self::new()
    }
}

/// A counter that was never moved.
pub open spec fn no_counts() -> Sides {
    Sides { increments: Map::empty(), decrements: Map::empty() }
}

/// The increments less the decrements.
pub open spec fn net(sides: Sides) -> int {
    super::g_counter::total(sides.increments) - super::g_counter::total(sides.decrements)
}

impl PNCounter {
    /// A counter at zero.
    pub fn new() -> (counter: Self)
        ensures
            counter@ == no_counts(),
    {
        PNCounter { increments: GCounter::new(), decrements: GCounter::new() }
    }

    /// Counts one increment by `node_id`.
    pub fn increment(&mut self, node_id: NodeId)
        requires
            crate::counts::count(old(self)@.increments, node_id) < u64::MAX,
        ensures
            final(self)@.increments == old(self)@.increments.insert(
                node_id,
                (crate::counts::count(old(self)@.increments, node_id) + 1) as u64,
            ),
            final(self)@.decrements == old(self)@.decrements,
    {
        self.increments.increment(node_id);
    }

    /// Counts one decrement by `node_id`.
    pub fn decrement(&mut self, node_id: NodeId)
        requires
            crate::counts::count(old(self)@.decrements, node_id) < u64::MAX,
        ensures
            final(self)@.decrements == old(self)@.decrements.insert(
                node_id,
                (crate::counts::count(old(self)@.decrements, node_id) + 1) as u64,
            ),
            final(self)@.increments == old(self)@.increments,
    {
        self.decrements.increment(node_id);
    }
}

impl Crdt for PNCounter {
    type Value = i64;

    open spec fn lawful() -> bool {
        true
    }

    open spec fn same(a: Sides, b: Sides) -> bool {
        &&& GCounter::same(a.increments, b.increments)
        &&& GCounter::same(a.decrements, b.decrements)
    }

    open spec fn join(a: Sides, b: Sides) -> Sides {
        Sides {
            increments: GCounter::join(a.increments, b.increments),
            decrements: GCounter::join(a.decrements, b.decrements),
        }
    }

    open spec fn below(a: Sides, b: Sides) -> bool {
        &&& GCounter::below(a.increments, b.increments)
        &&& GCounter::below(a.decrements, b.decrements)
    }

    open spec fn valid(a: Sides) -> bool {
        true
    }

    open spec fn agree(a: Sides, b: Sides) -> bool {
        true
    }

    open spec fn survives(a: Sides, b: Sides) -> bool {
        true
    }

    open spec fn adds_only(a: Sides, b: Sides) -> bool {
        true
    }

    open spec fn regroupable(a: Sides, b: Sides, c: Sides) -> bool {
        true
    }

    open spec fn readable(a: Sides) -> bool {
        &&& GCounter::readable(a.increments)
        &&& GCounter::readable(a.decrements)
        &&& i64::MIN <= net(a) <= i64::MAX
    }

    open spec fn reads(a: Sides, value: i64) -> bool {
        value == net(a)
    }

    fn replica(&self) -> (copy: Self) {
        self.clone()
    }

    fn value(&self) -> (value: i64) {
        let up: i128 = self.increments.value() as i128;
        let down: i128 = self.decrements.value() as i128;
        (up - down) as i64
    }

    fn merge(&mut self, other: Self) {
        self.increments.merge(other.increments);
        self.decrements.merge(other.decrements);
    }

    fn compare(&self, other: &Self) -> (included: bool) {
        self.increments.compare(&other.increments) && self.decrements.compare(&other.decrements)
    }

    proof fn merge_commutative(a: Sides, b: Sides) {
        GCounter::merge_commutative(a.increments, b.increments);
        GCounter::merge_commutative(a.decrements, b.decrements);
    }

    proof fn merge_associative(a: Sides, b: Sides, c: Sides) {
        GCounter::merge_associative(a.increments, b.increments, c.increments);
        GCounter::merge_associative(a.decrements, b.decrements, c.decrements);
    }

    proof fn merge_idempotent(a: Sides) {
        GCounter::merge_idempotent(a.increments);
        GCounter::merge_idempotent(a.decrements);
    }

    proof fn merge_keeps_valid(a: Sides, b: Sides) {
    }

    proof fn merge_includes(a: Sides, b: Sides) {
        GCounter::merge_includes(a.increments, b.increments);
        GCounter::merge_includes(a.decrements, b.decrements);
    }

    proof fn compare_reflexive(a: Sides) {
    }

    proof fn compare_transitive(a: Sides, b: Sides, c: Sides) {
        GCounter::compare_transitive(a.increments, b.increments, c.increments);
        GCounter::compare_transitive(a.decrements, b.decrements, c.decrements);
    }

    proof fn compare_means_included(a: Sides, b: Sides) {
        GCounter::compare_means_included(a.increments, b.increments);
        GCounter::compare_means_included(a.decrements, b.decrements);
    }
}

impl DeltaCrdt for PNCounter {
    type Delta = PNCounterDelta;

    type Version = PNCounterVersion;

    type DeltaModel = Sides;

    type VersionModel = Sides;

    open spec fn delta_model(delta: PNCounterDelta) -> Sides {
        delta@
    }

    open spec fn version_model(version: PNCounterVersion) -> Sides {
        version@
    }

    open spec fn version_of(a: Sides) -> Sides {
        a
    }

    open spec fn delta_of(a: Sides, since: Sides) -> Sides {
        Sides {
            increments: GCounter::delta_of(a.increments, since.increments),
            decrements: GCounter::delta_of(a.decrements, since.decrements),
        }
    }

    open spec fn absorb(a: Sides, delta: Sides) -> Sides {
        Sides {
            increments: GCounter::absorb(a.increments, delta.increments),
            decrements: GCounter::absorb(a.decrements, delta.decrements),
        }
    }

    open spec fn vacuous(delta: Sides) -> bool {
        GCounter::vacuous(delta.increments) && GCounter::vacuous(delta.decrements)
    }

    open spec fn is_versioned(a: Sides) -> bool {
        true
    }

    open spec fn covers(current: Sides, other: Sides) -> bool {
        &&& GCounter::covers(current.increments, other.increments)
        &&& GCounter::covers(current.decrements, other.decrements)
    }

    open spec fn bridges(
        sender: Sides,
        since: Sides,
        receiver: Sides,
    ) -> bool {
        true
    }

    open spec fn delta_agree(
        d: Sides, e: Sides) -> bool {
        true
    }

    open spec fn delta_valid(d: Sides) -> bool {
        true
    }

    fn copy_version(version: &PNCounterVersion) -> (copy: PNCounterVersion) {
        version.clone()
    }

    fn version(&self) -> (version: PNCounterVersion) {
        PNCounterVersion {
            increments: self.increments.version(),
            decrements: self.decrements.version(),
        }
    }

    fn delta_since(&self, since: &PNCounterVersion) -> (delta: PNCounterDelta) {
        PNCounterDelta {
            increments: self.increments.delta_since(&since.increments),
            decrements: self.decrements.delta_since(&since.decrements),
        }
    }

    fn merge_delta(&mut self, delta: PNCounterDelta) {
        self.increments.merge_delta(delta.increments);
        self.decrements.merge_delta(delta.decrements);
    }

    fn is_empty_delta(delta: &PNCounterDelta) -> (empty: bool) {
        GCounter::is_empty_delta(&delta.increments) && GCounter::is_empty_delta(&delta.decrements)
    }

    fn version_includes(current: &PNCounterVersion, other: &PNCounterVersion) -> (included: bool) {
        GCounter::version_includes(&current.increments, &other.increments)
            && GCounter::version_includes(&current.decrements, &other.decrements)
    }

    proof fn delta_catches_up(
        sender: Sides,
        since: Sides,
        receiver: Sides,
    ) {
        GCounter::delta_catches_up(sender.increments, since.increments, receiver.increments);
        GCounter::delta_catches_up(sender.decrements, since.decrements, receiver.decrements);
    }

    proof fn delta_is_merge(
        sender: Sides,
        since: Sides,
        receiver: Sides,
    ) {
        GCounter::delta_is_merge(sender.increments, since.increments, receiver.increments);
        GCounter::delta_is_merge(sender.decrements, since.decrements, receiver.decrements);
    }

    proof fn delta_commutative(a: Sides, d: Sides, e: Sides) {
        GCounter::delta_commutative(a.increments, d.increments, e.increments);
        GCounter::delta_commutative(a.decrements, d.decrements, e.decrements);
    }

    proof fn delta_idempotent(a: Sides, d: Sides) {
        GCounter::delta_idempotent(a.increments, d.increments);
        GCounter::delta_idempotent(a.decrements, d.decrements);
    }

    proof fn delta_keeps_valid(a: Sides, d: Sides) {
    }

    proof fn delta_of_is_valid(a: Sides, since: Sides) {
    }

    proof fn empty_delta_changes_nothing(a: Sides, d: Sides) {
        GCounter::empty_delta_changes_nothing(a.increments, d.increments);
        GCounter::empty_delta_changes_nothing(a.decrements, d.decrements);
    }

    proof fn delta_since_own_version_is_empty(a: Sides) {
        GCounter::delta_since_own_version_is_empty(a.increments);
        GCounter::delta_since_own_version_is_empty(a.decrements);
    }

    proof fn version_includes_itself(v: Sides) {
    }

    proof fn version_includes_transitive(u: Sides, v: Sides, w: Sides) {
        GCounter::version_includes_transitive(u.increments, v.increments, w.increments);
        GCounter::version_includes_transitive(u.decrements, v.decrements, w.decrements);
    }

    proof fn merge_advances_version(a: Sides, b: Sides) {
        GCounter::merge_advances_version(a.increments, b.increments);
        GCounter::merge_advances_version(a.decrements, b.decrements);
    }
}

/// An increment raises the value by one, and a decrement lowers it by one.
pub proof fn moves_by_one(sides: Sides, node: NodeId, c: u64)
    requires
        sides.increments.dom().finite(),
        sides.decrements.dom().finite(),
    ensures
        c == crate::counts::count(sides.increments, node) + 1 ==> net(
            Sides { increments: sides.increments.insert(node, c), ..sides },
        ) == net(sides) + 1,
        c == crate::counts::count(sides.decrements, node) + 1 ==> net(
            Sides { decrements: sides.decrements.insert(node, c), ..sides },
        ) == net(sides) - 1,
{
    if c == crate::counts::count(sides.increments, node) + 1 {
        super::g_counter::increment_adds_one(sides.increments, node, c);
    }
    if c == crate::counts::count(sides.decrements, node) + 1 {
        super::g_counter::increment_adds_one(sides.decrements, node, c);
    }
}

/// A counter that was never moved reads zero.
pub proof fn unmoved_reads_zero()
    ensures
        net(no_counts()) == 0,
        forall|node: NodeId| !#[trigger] no_counts().increments.contains_key(node),
        forall|node: NodeId| !#[trigger] no_counts().decrements.contains_key(node),
{
    super::g_counter::total_of_one(0, 0);
}

/// The increments and the decrements go their own ways: each side merges, is compared, and has
/// deltas and versions, as a counter of its own.
pub proof fn sides_are_counters(a: Sides, b: Sides, since: Sides, value: i64)
    ensures
        PNCounter::lawful(),
        PNCounter::readable(a) <==> super::g_counter::total(a.increments) <= u64::MAX
            && super::g_counter::total(a.decrements) <= u64::MAX && i64::MIN <= net(a) <= i64::MAX,
        PNCounter::reads(a, value) <==> value == super::g_counter::total(a.increments)
            - super::g_counter::total(a.decrements),
        PNCounter::join(a, b).increments == GCounter::join(a.increments, b.increments),
        PNCounter::join(a, b).decrements == GCounter::join(a.decrements, b.decrements),
        PNCounter::below(a, b) <==> GCounter::below(a.increments, b.increments) && GCounter::below(
            a.decrements,
            b.decrements,
        ),
        PNCounter::version_of(a).increments == a.increments,
        PNCounter::version_of(a).decrements == a.decrements,
        PNCounter::delta_of(a, since).increments == GCounter::delta_of(
            a.increments,
            since.increments,
        ),
        PNCounter::delta_of(a, since).decrements == GCounter::delta_of(
            a.decrements,
            since.decrements,
        ),
        PNCounter::absorb(a, b).increments == GCounter::absorb(a.increments, b.increments),
        PNCounter::absorb(a, b).decrements == GCounter::absorb(a.decrements, b.decrements),
        PNCounter::covers(a, b) <==> GCounter::covers(a.increments, b.increments)
            && GCounter::covers(a.decrements, b.decrements),
        PNCounter::vacuous(a) <==> GCounter::vacuous(a.increments) && GCounter::vacuous(
            a.decrements,
        ),
        PNCounter::valid(a),
        PNCounter::agree(a, b),
        PNCounter::survives(a, b),
        PNCounter::adds_only(a, b),
        PNCounter::regroupable(a, b, since),
        PNCounter::bridges(a, since, b),
        PNCounter::is_versioned(a),
        PNCounter::delta_valid(a),
        PNCounter::delta_agree(a, b),
{
}

} // verus!

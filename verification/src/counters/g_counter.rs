//! Grow-only counter.
//!
//! Each node tracks its own increment count. Value = sum of all nodes. Merge = element-wise max.
//! Never decreases.
use crate::collections::map_entries;
use crate::counts::{counts_dominate, counts_since, get_count, merge_counts};
use crate::traits::{Crdt, DeltaCrdt};
use crate::NodeId;
use std::collections::BTreeMap;
use vstd::prelude::*;

verus! {

/// Grow-only counter. Each node maintains its own monotonic count; the value is the sum across
/// all nodes. Merge is element-wise max.
#[derive(Debug, PartialEq)]
pub struct GCounter {
    pub counts: BTreeMap<NodeId, u64>,
}

impl View for GCounter {
    type V = Map<NodeId, u64>;

    open spec fn view(&self) -> Map<NodeId, u64> {
        self.counts@
    }
}

impl Clone for GCounter {
    fn clone(&self) -> (copy: Self)
        ensures
            copy@ == self@,
    {
        GCounter { counts: self.counts.clone() }
    }
}

impl Default for GCounter {
    fn default() -> (counter: Self)
        ensures
            counter@ == Map::<NodeId, u64>::empty(),
    {
        Self::new()
    }
}

/// The sum of all counts.
pub open spec fn total(counts: Map<NodeId, u64>) -> nat
    decreases counts.dom().len(),
{
    if counts.dom().finite() && !counts.dom().is_empty() {
        let node = counts.dom().choose();
        counts[node] as nat + total(counts.remove(node))
    } else {
        0
    }
}

/// The sum does not depend on the order in which the counts are added.
pub proof fn total_splits(counts: Map<NodeId, u64>, node: NodeId)
    requires
        counts.dom().finite(),
        counts.contains_key(node),
    ensures
        total(counts) == counts[node] + total(counts.remove(node)),
    decreases counts.dom().len(),
{
    let first = counts.dom().choose();
    assert(counts.dom().contains(node));
    assert(counts.dom().contains(first));
    if first != node {
        total_splits(counts.remove(first), node);
        total_splits(counts.remove(node), first);
        assert(counts.remove(first).remove(node) =~= counts.remove(node).remove(first));
    }
}

/// An increment adds one to the value.
pub proof fn increment_adds_one(counts: Map<NodeId, u64>, node: NodeId, c: u64)
    requires
        counts.dom().finite(),
        c == crate::counts::count(counts, node) + 1,
    ensures
        total(counts.insert(node, c)) == total(counts) + 1,
{
    let after = counts.insert(node, c);
    total_splits(after, node);
    assert(after.remove(node) =~= counts.remove(node));
    if counts.contains_key(node) {
        total_splits(counts, node);
    } else {
        assert(counts.remove(node) =~= counts);
    }
}

/// A counter never decreases: a state that includes another has at least its value.
pub proof fn value_is_monotonic(a: Map<NodeId, u64>, b: Map<NodeId, u64>)
    requires
        a.dom().finite(),
        b.dom().finite(),
        crate::counts::dominates(b, a),
    ensures
        total(a) <= total(b),
    decreases a.dom().len(),
{
    if !a.dom().is_empty() {
        let node = a.dom().choose();
        assert(a.dom().contains(node));
        let a_rest = a.remove(node);
        let b_rest = b.remove(node);
        assert forall|n: NodeId| #[trigger]
            crate::counts::count(b_rest, n) >= crate::counts::count(a_rest, n) by {
            assert(crate::counts::count(b, n) >= crate::counts::count(a, n));
        }
        value_is_monotonic(a_rest, b_rest);
        assert(crate::counts::count(b, node) >= crate::counts::count(a, node));
        if b.contains_key(node) {
            total_splits(b, node);
        } else {
            assert(b_rest =~= b);
        }
    }
}

/// Merging never lowers the value below that of either side.
pub proof fn merge_never_decreases(a: Map<NodeId, u64>, b: Map<NodeId, u64>)
    requires
        a.dom().finite(),
        b.dom().finite(),
    ensures
        total(GCounter::join(a, b)) >= total(a),
        total(GCounter::join(a, b)) >= total(b),
{
    let joined = GCounter::join(a, b);
    assert(joined.dom() =~= a.dom().union(b.dom()));
    value_is_monotonic(a, joined);
    value_is_monotonic(b, joined);
}

/// Counters whose counts are all equal have one value.
pub proof fn same_counts_same_value(a: Map<NodeId, u64>, b: Map<NodeId, u64>)
    requires
        a.dom().finite(),
        b.dom().finite(),
        crate::counts::same_counts(a, b),
    ensures
        total(a) == total(b),
{
    assert forall|n: NodeId| #[trigger] crate::counts::count(b, n)
        >= crate::counts::count(a, n) by {
        assert(crate::counts::count(a, n) == crate::counts::count(b, n));
    }
    value_is_monotonic(a, b);
    value_is_monotonic(b, a);
}

impl GCounter {
    /// A counter at zero.
    pub fn new() -> (counter: Self)
        ensures
            counter@ == Map::<NodeId, u64>::empty(),
    {
        GCounter { counts: BTreeMap::new() }
    }

    /// Increment this node's count by 1.
    pub fn increment(&mut self, node_id: NodeId)
        requires
            crate::counts::count(old(self)@, node_id) < u64::MAX,
        ensures
            final(self)@ == old(self)@.insert(
                node_id,
                (crate::counts::count(old(self)@, node_id) + 1) as u64,
            ),
    {
        let c: u64 = self.get(&node_id);
        self.counts.insert(node_id, c + 1);
    }

    /// The count of one node.
    pub fn get(&self, node_id: &NodeId) -> (c: u64)
        ensures
            c == crate::counts::count(self@, *node_id),
    {
        get_count(&self.counts, node_id)
    }

    /// The sum of all node counts, or `None` where it is out of range.
    pub fn checked_value(&self) -> (value: Option<u64>)
        ensures
            value == if total(self@) <= u64::MAX {
                Some(total(self@) as u64)
            } else {
                None
            },
    {
        let rows = map_entries(&self.counts);
        let ghost listed = rows@.unref();
        let ghost mut rest = self.counts@;
        let mut sum: u64 = 0;
        for i in 0..rows.len()
            invariant
                listed == rows@.unref(),
                crate::collections::lists_map(listed, self.counts@),
                rest.dom().finite(),
                sum + total(rest) == total(self.counts@),
                forall|j: int|
                    #![trigger listed[j]]
                    i <= j < listed.len() ==> rest.contains_key(listed[j].0)
                        && rest[listed[j].0] == listed[j].1,
                forall|j: int|
                    #![trigger listed[j]]
                    0 <= j < i ==> !rest.contains_key(listed[j].0),
                forall|node: NodeId| #[trigger]
                    rest.contains_key(node) ==> self.counts@.contains_key(node),
        {
            let c: u64 = *rows[i].1;
            assert(listed[i as int] == (*rows@[i as int].0, c));
            proof {
                total_splits(rest, listed[i as int].0);
                rest = rest.remove(listed[i as int].0);
            }
            match sum.checked_add(c) {
                Some(next) => {
                    sum = next;
                },
                None => {
                    return None;
                },
            }
        }
        proof {
            assert forall|node: NodeId| !rest.dom().contains(node) by {
                if rest.contains_key(node) {
                    let j = choose|j: int|
                        0 <= j < listed.len() && (#[trigger] listed[j]).0 == node;
                    assert(!rest.contains_key(listed[j].0));
                }
            }
            assert(rest.dom() =~= Set::empty());
        }
        Some(sum)
    }
}

impl Crdt for GCounter {
    type Value = u64;

    open spec fn lawful() -> bool {
        true
    }

    open spec fn same(a: Map<NodeId, u64>, b: Map<NodeId, u64>) -> bool {
        crate::counts::same_counts(a, b)
    }

    open spec fn join(a: Map<NodeId, u64>, b: Map<NodeId, u64>) -> Map<NodeId, u64> {
        crate::counts::join_counts(a, b)
    }

    open spec fn below(a: Map<NodeId, u64>, b: Map<NodeId, u64>) -> bool {
        crate::counts::dominates(b, a)
    }

    open spec fn valid(a: Map<NodeId, u64>) -> bool {
        true
    }

    open spec fn agree(a: Map<NodeId, u64>, b: Map<NodeId, u64>) -> bool {
        true
    }

    open spec fn survives(a: Map<NodeId, u64>, b: Map<NodeId, u64>) -> bool {
        true
    }

    open spec fn adds_only(a: Map<NodeId, u64>, b: Map<NodeId, u64>) -> bool {
        true
    }

    open spec fn regroupable(
        a: Map<NodeId, u64>,
        b: Map<NodeId, u64>,
        c: Map<NodeId, u64>,
    ) -> bool {
        true
    }

    open spec fn readable(a: Map<NodeId, u64>) -> bool {
        total(a) <= u64::MAX
    }

    open spec fn reads(a: Map<NodeId, u64>, value: u64) -> bool {
        value == total(a)
    }

    fn replica(&self) -> (copy: Self) {
        self.clone()
    }

    /// Sum of all node counts.
    fn value(&self) -> (value: u64) {
        match self.checked_value() {
            Some(value) => value,
            None => 0,
        }
    }

    /// Element-wise max of each node's count.
    fn merge(&mut self, other: Self) {
        merge_counts(&mut self.counts, &other.counts);
    }

    /// True if every component of self is at most that of other.
    fn compare(&self, other: &Self) -> (included: bool) {
        counts_dominate(&other.counts, &self.counts)
    }

    proof fn merge_commutative(a: Map<NodeId, u64>, b: Map<NodeId, u64>) {
        assert(Self::join(a, b) =~= Self::join(b, a));
    }

    proof fn merge_associative(
        a: Map<NodeId, u64>,
        b: Map<NodeId, u64>,
        c: Map<NodeId, u64>,
    ) {
        assert(Self::join(Self::join(a, b), c) =~= Self::join(a, Self::join(b, c)));
    }

    proof fn merge_idempotent(a: Map<NodeId, u64>) {
        assert(Self::join(a, a) =~= a);
    }

    proof fn merge_keeps_valid(a: Map<NodeId, u64>, b: Map<NodeId, u64>) {
    }

    proof fn merge_includes(a: Map<NodeId, u64>, b: Map<NodeId, u64>) {
    }

    proof fn compare_reflexive(a: Map<NodeId, u64>) {
    }

    proof fn compare_transitive(a: Map<NodeId, u64>, b: Map<NodeId, u64>, c: Map<NodeId, u64>) {
        crate::counts::dominates_transitive(c, b, a);
    }

    proof fn compare_means_included(a: Map<NodeId, u64>, b: Map<NodeId, u64>) {
        assert forall|node: NodeId| #[trigger]
            crate::counts::count(Self::join(a, b), node) == crate::counts::count(b, node) by {
            assert(crate::counts::count(b, node) >= crate::counts::count(a, node));
        }
    }
}

impl DeltaCrdt for GCounter {
    /// Sparse per-node delta containing only nodes whose count exceeds the receiver's view.
    type Delta = BTreeMap<NodeId, u64>;

    type Version = BTreeMap<NodeId, u64>;

    type DeltaModel = Map<NodeId, u64>;

    type VersionModel = Map<NodeId, u64>;

    open spec fn delta_model(delta: BTreeMap<NodeId, u64>) -> Map<NodeId, u64> {
        delta@
    }

    open spec fn version_model(version: BTreeMap<NodeId, u64>) -> Map<NodeId, u64> {
        version@
    }

    open spec fn version_of(a: Map<NodeId, u64>) -> Map<NodeId, u64> {
        a
    }

    open spec fn delta_of(a: Map<NodeId, u64>, since: Map<NodeId, u64>) -> Map<NodeId, u64> {
        crate::counts::counts_beyond(a, since)
    }

    open spec fn absorb(a: Map<NodeId, u64>, delta: Map<NodeId, u64>) -> Map<NodeId, u64> {
        crate::counts::join_counts(a, delta)
    }

    open spec fn vacuous(delta: Map<NodeId, u64>) -> bool {
        delta.is_empty()
    }

    open spec fn is_versioned(a: Map<NodeId, u64>) -> bool {
        true
    }

    open spec fn covers(current: Map<NodeId, u64>, other: Map<NodeId, u64>) -> bool {
        crate::counts::dominates(current, other)
    }

    open spec fn bridges(
        sender: Map<NodeId, u64>,
        since: Map<NodeId, u64>,
        receiver: Map<NodeId, u64>,
    ) -> bool {
        true
    }

    open spec fn delta_agree(
        d: Map<NodeId, u64>,
        e: Map<NodeId, u64>,
    ) -> bool {
        true
    }

    open spec fn delta_valid(d: Map<NodeId, u64>) -> bool {
        true
    }

    fn copy_version(version: &BTreeMap<NodeId, u64>) -> (copy: BTreeMap<NodeId, u64>) {
        version.clone()
    }

    fn version(&self) -> (version: BTreeMap<NodeId, u64>) {
        self.counts.clone()
    }

    fn delta_since(&self, since: &BTreeMap<NodeId, u64>) -> (delta: BTreeMap<NodeId, u64>) {
        counts_since(&self.counts, since)
    }

    fn merge_delta(&mut self, delta: BTreeMap<NodeId, u64>) {
        merge_counts(&mut self.counts, &delta);
    }

    fn is_empty_delta(delta: &BTreeMap<NodeId, u64>) -> (empty: bool) {
        delta.is_empty()
    }

    fn version_includes(
        current: &BTreeMap<NodeId, u64>,
        other: &BTreeMap<NodeId, u64>,
    ) -> (included: bool) {
        counts_dominate(current, other)
    }

    proof fn delta_catches_up(
        sender: Map<NodeId, u64>,
        since: Map<NodeId, u64>,
        receiver: Map<NodeId, u64>,
    ) {
        crate::counts::beyond_is_enough(sender, since, receiver);
    }

    proof fn delta_is_merge(
        sender: Map<NodeId, u64>,
        since: Map<NodeId, u64>,
        receiver: Map<NodeId, u64>,
    ) {
        crate::counts::beyond_is_enough(sender, since, receiver);
    }

    proof fn delta_commutative(
        a: Map<NodeId, u64>,
        d: Map<NodeId, u64>,
        e: Map<NodeId, u64>,
    ) {
        assert(Self::absorb(Self::absorb(a, d), e) =~= Self::absorb(Self::absorb(a, e), d));
    }

    proof fn delta_idempotent(a: Map<NodeId, u64>, d: Map<NodeId, u64>) {
        assert(Self::absorb(Self::absorb(a, d), d) =~= Self::absorb(a, d));
    }

    proof fn delta_keeps_valid(a: Map<NodeId, u64>, d: Map<NodeId, u64>) {
    }

    proof fn delta_of_is_valid(a: Map<NodeId, u64>, since: Map<NodeId, u64>) {
    }

    proof fn empty_delta_changes_nothing(a: Map<NodeId, u64>, d: Map<NodeId, u64>) {
        assert(Self::absorb(a, d) =~= a);
    }

    proof fn delta_since_own_version_is_empty(a: Map<NodeId, u64>) {
        assert(Self::delta_of(a, a).dom() =~= Set::empty());
    }

    proof fn version_includes_itself(v: Map<NodeId, u64>) {
    }

    proof fn version_includes_transitive(
        u: Map<NodeId, u64>,
        v: Map<NodeId, u64>,
        w: Map<NodeId, u64>,
    ) {
        crate::counts::dominates_transitive(u, v, w);
    }

    proof fn merge_advances_version(a: Map<NodeId, u64>, b: Map<NodeId, u64>) {
    }
}

/// A counter that was never moved reads zero, and one with one entry reads that.
pub proof fn total_of_one(node: NodeId, c: u64)
    ensures
        total(Map::empty()) == 0,
        total(Map::<NodeId, u64>::empty().insert(node, c)) == c,
{
    let one = Map::<NodeId, u64>::empty().insert(node, c);
    total_splits(one, node);
    assert(one.remove(node) =~= Map::empty());
}

/// What a counter reads is its total, wherever that is in range. A merge takes the greater count of
/// each node; a delta since a version holds the counts that are greater than those of the version,
/// as they are, and applying it is merging.
pub proof fn counter_merges_by_maximum(
    a: Map<NodeId, u64>,
    b: Map<NodeId, u64>,
    since: Map<NodeId, u64>,
    value: u64,
)
    ensures
        GCounter::lawful(),
        GCounter::readable(a) <==> total(a) <= u64::MAX,
        GCounter::reads(a, value) <==> value == total(a),
        GCounter::join(a, b) == crate::counts::join_counts(a, b),
        GCounter::below(a, b) <==> crate::counts::dominates(b, a),
        GCounter::version_of(a) == a,
        GCounter::delta_of(a, since) == crate::counts::counts_beyond(a, since),
        GCounter::absorb(a, b) == crate::counts::join_counts(a, b),
        GCounter::covers(a, b) <==> crate::counts::dominates(a, b),
        GCounter::vacuous(a) <==> forall|node: NodeId| !#[trigger] a.contains_key(node),
        GCounter::valid(a),
        GCounter::agree(a, b),
        GCounter::survives(a, b),
        GCounter::adds_only(a, b),
        GCounter::regroupable(a, b, since),
        GCounter::bridges(a, since, b),
        GCounter::is_versioned(a),
        GCounter::delta_valid(a),
        GCounter::delta_agree(a, b),
{
    if GCounter::vacuous(a) {
        assert forall|node: NodeId| !#[trigger] a.contains_key(node) by {
            assert(!a.dom().contains(node));
        }
    }
    if forall|node: NodeId| !#[trigger] a.contains_key(node) {
        assert(a.dom() =~= Set::empty());
    }
}

/// Concurrent increments add up: counters that start from the same state and are incremented by
/// different nodes read, once merged, the number of all their increments more.
pub proof fn concurrent_increments_add_up(
    start: Map<NodeId, u64>,
    a: NodeId,
    b: NodeId,
    more_a: u64,
    more_b: u64,
)
    requires
        start.dom().finite(),
        a != b,
        crate::counts::count(start, a) + more_a <= u64::MAX,
        crate::counts::count(start, b) + more_b <= u64::MAX,
    ensures
        total(
            GCounter::join(
                start.insert(a, (crate::counts::count(start, a) + more_a) as u64),
                start.insert(b, (crate::counts::count(start, b) + more_b) as u64),
            ),
        ) == total(start) + more_a + more_b,
{
    let ca = (crate::counts::count(start, a) + more_a) as u64;
    let cb = (crate::counts::count(start, b) + more_b) as u64;
    let joined = GCounter::join(start.insert(a, ca), start.insert(b, cb));
    assert(joined =~= start.insert(a, ca).insert(b, cb));
    let rest = start.remove(a).remove(b);
    total_splits(joined, a);
    total_splits(joined.remove(a), b);
    assert(joined.remove(a).remove(b) =~= rest);
    if start.contains_key(a) {
        total_splits(start, a);
    } else {
        assert(start.remove(a) =~= start);
    }
    if start.contains_key(b) {
        total_splits(start.remove(a), b);
    } else {
        assert(start.remove(a).remove(b) =~= start.remove(a));
    }
}

} // verus!

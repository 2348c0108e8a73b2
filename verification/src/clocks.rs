//! Tracking via vector clocks.
//!
//! [`VectorClock`] is the foundational primitive used by other CRDTs for timestamp generation
//! and ordering.
use crate::collections::map_entries;
use crate::counts::{counts_dominate, counts_since, get_count, merge_counts};
use crate::traits::{Crdt, DeltaCrdt};
use crate::NodeId;
use std::collections::BTreeMap;
use vstd::prelude::*;

verus! {

/// Causality primitive for tracking events across nodes.
///
/// Tracks the number of events seen from each node. A missing entry is equivalent to a count of
/// zero, so `{A:1}` and `{A:1, B:0}` are equal.
#[derive(Debug, Eq)]
pub struct VectorClock {
    pub clock: BTreeMap<NodeId, u64>,
}

/// Result of comparing two [`VectorClock`]s under the causal partial order.
#[derive(Clone, Copy, Debug, PartialEq, Eq, Structural)]
pub enum ClockOrder {
    /// Every component of `self` is at most the corresponding component of `other`, and at least
    /// one is strictly less. `self` happened before `other`.
    Before,
    /// Every component of `self` is at least the corresponding component of `other`, and at
    /// least one is strictly greater. `self` happened after `other`.
    After,
    /// All components are equal.
    Equal,
    /// Neither clock dominates the other; the events are causally independent.
    Concurrent,
}

impl View for VectorClock {
    type V = Map<NodeId, u64>;

    open spec fn view(&self) -> Map<NodeId, u64> {
        self.clock@
    }
}

impl Clone for VectorClock {
    fn clone(&self) -> (copy: Self)
        ensures
            copy@ == self@,
    {
        VectorClock { clock: self.clock.clone() }
    }
}

impl Default for VectorClock {
    fn default() -> (clock: Self)
        ensures
            clock@ == Map::<NodeId, u64>::empty(),
    {
        VectorClock { clock: BTreeMap::new() }
    }
}

impl PartialEq for VectorClock {
    fn eq(&self, other: &Self) -> (equal: bool) {
        proof {
            crate::counts::same_means_both(self.clock@, other.clock@);
        }
        counts_dominate(&self.clock, &other.clock) && counts_dominate(&other.clock, &self.clock)
    }
}

impl vstd::std_specs::cmp::PartialEqSpecImpl for VectorClock {
    open spec fn obeys_eq_spec() -> bool {
        true
    }

    open spec fn eq_spec(&self, other: &Self) -> bool {
        crate::counts::same_counts(self@, other@)
    }
}

/// The greatest component of a clock is `time`, which is zero for an empty clock.
pub open spec fn is_lamport(clock: Map<NodeId, u64>, time: u64) -> bool {
    &&& forall|node: NodeId| #[trigger] crate::counts::count(clock, node) <= time
    &&& time == 0 || exists|node: NodeId| #[trigger] crate::counts::count(clock, node) == time
}

/// The greatest component of a clock.
pub open spec fn latest_time(clock: Map<NodeId, u64>) -> u64 {
    choose|time: u64| is_lamport(clock, time)
}

/// A clock has one greatest component.
pub proof fn lamport_is_unique(clock: Map<NodeId, u64>, time: u64)
    requires
        is_lamport(clock, time),
    ensures
        latest_time(clock) == time,
{
    let latest = latest_time(clock);
    assert(is_lamport(clock, latest));
    if time > 0 {
        let node = choose|node: NodeId| #[trigger] crate::counts::count(clock, node) == time;
        assert(crate::counts::count(clock, node) <= latest);
    }
    if latest > 0 {
        let node = choose|node: NodeId| #[trigger] crate::counts::count(clock, node) == latest;
        assert(crate::counts::count(clock, node) <= time);
    }
}

/// No component has reached the end of its range.
pub open spec fn can_tick(clock: Map<NodeId, u64>) -> bool {
    forall|node: NodeId| #[trigger] crate::counts::count(clock, node) < u64::MAX
}

/// No component is within `n` of the end of its range.
pub open spec fn can_tick_times(clock: Map<NodeId, u64>, n: nat) -> bool {
    forall|node: NodeId| #[trigger] crate::counts::count(clock, node) + n <= u64::MAX
}

/// The greatest component has the room that every component has.
pub proof fn room_bounds_latest(clock: Map<NodeId, u64>, time: u64, n: nat)
    requires
        can_tick_times(clock, n),
        is_lamport(clock, time),
    ensures
        time + n <= u64::MAX || time == 0,
        n > 0 ==> can_tick(clock) && time < u64::MAX,
{
    if time > 0 {
        let latest = choose|l: NodeId| #[trigger] crate::counts::count(clock, l) == time;
        assert(crate::counts::count(clock, latest) + n <= u64::MAX);
    }
    if n > 0 {
        assert forall|other: NodeId| #[trigger] crate::counts::count(clock, other) < u64::MAX by {
            assert(crate::counts::count(clock, other) + n <= u64::MAX);
        }
    }
}

/// A tick takes one off the room that a clock has.
pub proof fn tick_leaves_room(clock: Map<NodeId, u64>, node: NodeId, time: u64, n: nat)
    requires
        can_tick_times(clock, n),
        n > 0,
        is_lamport(clock, (time - 1) as u64),
        time > 0,
    ensures
        can_tick(clock),
        can_tick_times(clock.insert(node, time), (n - 1) as nat),
{
    assert forall|other: NodeId| #[trigger] crate::counts::count(clock, other) < u64::MAX by {
        assert(crate::counts::count(clock, other) + n <= u64::MAX);
    }
    let after = clock.insert(node, time);
    assert forall|other: NodeId| #[trigger] crate::counts::count(after, other) + (n - 1) as nat
        <= u64::MAX by {
        assert(crate::counts::count(clock, other) + n <= u64::MAX);
        if other == node && time > 1 {
            let latest = choose|l: NodeId| #[trigger]
                crate::counts::count(clock, l) == (time - 1) as u64;
            assert(crate::counts::count(clock, latest) + n <= u64::MAX);
        }
    }
}

/// How two clocks relate under the causal partial order.
pub open spec fn order_of(a: Map<NodeId, u64>, b: Map<NodeId, u64>) -> ClockOrder {
    if crate::counts::dominates(a, b) && crate::counts::dominates(b, a) {
        ClockOrder::Equal
    } else if crate::counts::dominates(a, b) {
        ClockOrder::After
    } else if crate::counts::dominates(b, a) {
        ClockOrder::Before
    } else {
        ClockOrder::Concurrent
    }
}

impl VectorClock {
    /// Creates an empty clock (all components implicitly zero).
    pub fn new() -> (clock: Self)
        ensures
            clock@ == Map::<NodeId, u64>::empty(),
    {
        Self::default()
    }

    /// Advances `node`'s counter past all observed values and returns it.
    ///
    /// This is the Lamport clock rule applied to the vector clock. The returned timestamp is
    /// strictly greater than any component in the clock, making it safe to use as an LWW
    /// timestamp.
    pub fn increment(&mut self, node: NodeId) -> (time: u64)
        requires
            can_tick(old(self)@),
        ensures
            time > 0,
            is_lamport(old(self)@, (time - 1) as u64),
            time == latest_time(old(self)@) + 1,
            final(self)@ == old(self)@.insert(node, time),
    {
        let max: u64 = self.lamport_timestamp();
        proof {
            if max > 0 {
                let latest = choose|node: NodeId| #[trigger]
                    crate::counts::count(self@, node) == max;
                assert(crate::counts::count(self@, latest) < u64::MAX);
            }
        }
        let time: u64 = max + 1;
        self.clock.insert(node, time);
        time
    }

    /// Returns the current component for `node`, or `0` if unseen.
    pub fn get(&self, node: &NodeId) -> (c: u64)
        ensures
            c == crate::counts::count(self@, *node),
    {
        get_count(&self.clock, node)
    }

    /// Returns the maximum over all components, used as a Lamport timestamp.
    pub fn lamport_timestamp(&self) -> (time: u64)
        ensures
            is_lamport(self@, time),
            time == latest_time(self@),
    {
        let rows = map_entries(&self.clock);
        let ghost listed = rows@.unref();
        let mut max: u64 = 0;
        for i in 0..rows.len()
            invariant
                listed == rows@.unref(),
                crate::collections::lists_map(listed, self.clock@),
                forall|j: int| #![trigger listed[j]] 0 <= j < i ==> listed[j].1 <= max,
                max == 0 || exists|node: NodeId| #[trigger]
                    crate::counts::count(self@, node) == max,
        {
            let c: u64 = *rows[i].1;
            assert(listed[i as int] == (*rows@[i as int].0, c));
            assert(crate::counts::count(self@, listed[i as int].0) == c);
            if c > max {
                max = c;
            }
        }
        assert forall|node: NodeId| #[trigger] crate::counts::count(self@, node) <= max by {
            if self.clock@.contains_key(node) {
                let j = choose|j: int| 0 <= j < listed.len() && (#[trigger] listed[j]).0 == node;
                assert(listed[j].1 <= max);
            }
        }
        proof {
            lamport_is_unique(self@, max);
        }
        max
    }

    /// Compares `self` to `other` under the causal partial order.
    pub fn partial_order(&self, other: &Self) -> (order: ClockOrder)
        ensures
            order == order_of(self@, other@),
    {
        let self_dom = self.dominates(other);
        let other_dom = other.dominates(self);
        match (self_dom, other_dom) {
            (true, true) => ClockOrder::Equal,
            (true, false) => ClockOrder::After,
            (false, true) => ClockOrder::Before,
            (false, false) => ClockOrder::Concurrent,
        }
    }

    /// Returns `true` if `self` is at least `other` in every component.
    pub fn dominates(&self, other: &Self) -> (result: bool)
        ensures
            result == crate::counts::dominates(self@, other@),
    {
        counts_dominate(&self.clock, &other.clock)
    }
}

/// A timestamp that `increment` hands out is greater than every component there was, so it is
/// fresh; and it is the greatest component afterwards.
pub proof fn increment_is_fresh(clock: Map<NodeId, u64>, node: NodeId, time: u64)
    requires
        time > 0,
        is_lamport(clock, (time - 1) as u64),
    ensures
        forall|n: NodeId| #[trigger] crate::counts::count(clock, n) < time,
        is_lamport(clock.insert(node, time), time),
        crate::counts::dominates(clock.insert(node, time), clock),
        !crate::counts::dominates(clock, clock.insert(node, time)),
{
    let after = clock.insert(node, time);
    assert(crate::counts::count(after, node) == time);
    assert(crate::counts::count(clock, node) < time);
    assert forall|n: NodeId| #[trigger] crate::counts::count(after, n) <= time by {
        assert(crate::counts::count(clock, n) < time);
    }
    assert forall|n: NodeId| #[trigger]
        crate::counts::count(after, n) >= crate::counts::count(clock, n) by {
        assert(crate::counts::count(clock, n) < time);
    }
}

impl Crdt for VectorClock {
    type Value = BTreeMap<NodeId, u64>;

    open spec fn lawful() -> bool {
        true
    }

    open spec fn same(a: Map<NodeId, u64>, b: Map<NodeId, u64>) -> bool {
        crate::counts::same_counts(a, b)
    }

    open spec fn join(a: Map<NodeId, u64>, b: Map<NodeId, u64>) -> Map<NodeId, u64> {
        crate::counts::join_counts(a, b)
    }

    open spec fn below(a: Map<NodeId, u64>, b: Map<NodeId, u64>) -> bool {
        crate::counts::dominates(b, a)
    }

    open spec fn valid(a: Map<NodeId, u64>) -> bool {
        true
    }

    open spec fn agree(a: Map<NodeId, u64>, b: Map<NodeId, u64>) -> bool {
        true
    }

    open spec fn survives(a: Map<NodeId, u64>, b: Map<NodeId, u64>) -> bool {
        true
    }

    open spec fn adds_only(a: Map<NodeId, u64>, b: Map<NodeId, u64>) -> bool {
        true
    }

    open spec fn regroupable(
        a: Map<NodeId, u64>,
        b: Map<NodeId, u64>,
        c: Map<NodeId, u64>,
    ) -> bool {
        true
    }

    open spec fn readable(a: Map<NodeId, u64>) -> bool {
        true
    }

    open spec fn reads(a: Map<NodeId, u64>, value: BTreeMap<NodeId, u64>) -> bool {
        value@ == a
    }

    fn replica(&self) -> (copy: Self) {
        self.clone()
    }

    fn value(&self) -> (value: BTreeMap<NodeId, u64>) {
        self.clock.clone()
    }

    /// Merge rule: element-wise maximum of each node's component.
    fn merge(&mut self, other: Self) {
        merge_counts(&mut self.clock, &other.clock);
    }

    /// Returns true if other dominates self component-wise.
    fn compare(&self, other: &Self) -> (included: bool) {
        other.dominates(self)
    }

    proof fn merge_commutative(a: Map<NodeId, u64>, b: Map<NodeId, u64>) {
        assert(Self::join(a, b) =~= Self::join(b, a));
    }

    proof fn merge_associative(
        a: Map<NodeId, u64>,
        b: Map<NodeId, u64>,
        c: Map<NodeId, u64>,
    ) {
        assert(Self::join(Self::join(a, b), c) =~= Self::join(a, Self::join(b, c)));
    }

    proof fn merge_idempotent(a: Map<NodeId, u64>) {
        assert(Self::join(a, a) =~= a);
    }

    proof fn merge_keeps_valid(a: Map<NodeId, u64>, b: Map<NodeId, u64>) {
    }

    proof fn merge_includes(a: Map<NodeId, u64>, b: Map<NodeId, u64>) {
    }

    proof fn compare_reflexive(a: Map<NodeId, u64>) {
    }

    proof fn compare_transitive(a: Map<NodeId, u64>, b: Map<NodeId, u64>, c: Map<NodeId, u64>) {
        crate::counts::dominates_transitive(c, b, a);
    }

    proof fn compare_means_included(a: Map<NodeId, u64>, b: Map<NodeId, u64>) {
        assert forall|node: NodeId| #[trigger]
            crate::counts::count(Self::join(a, b), node) == crate::counts::count(b, node) by {
            assert(crate::counts::count(b, node) >= crate::counts::count(a, node));
        }
    }
}

impl DeltaCrdt for VectorClock {
    /// A delta is itself a (sparse) vector clock: only the entries whose component strictly
    /// exceeds the receiver's known value.
    type Delta = VectorClock;

    type Version = VectorClock;

    type DeltaModel = Map<NodeId, u64>;

    type VersionModel = Map<NodeId, u64>;

    open spec fn delta_model(delta: VectorClock) -> Map<NodeId, u64> {
        delta@
    }

    open spec fn version_model(version: VectorClock) -> Map<NodeId, u64> {
        version@
    }

    open spec fn version_of(a: Map<NodeId, u64>) -> Map<NodeId, u64> {
        a
    }

    open spec fn delta_of(a: Map<NodeId, u64>, since: Map<NodeId, u64>) -> Map<NodeId, u64> {
        crate::counts::counts_beyond(a, since)
    }

    open spec fn absorb(a: Map<NodeId, u64>, delta: Map<NodeId, u64>) -> Map<NodeId, u64> {
        crate::counts::join_counts(a, delta)
    }

    open spec fn vacuous(delta: Map<NodeId, u64>) -> bool {
        delta.is_empty()
    }

    open spec fn is_versioned(a: Map<NodeId, u64>) -> bool {
        true
    }

    open spec fn covers(current: Map<NodeId, u64>, other: Map<NodeId, u64>) -> bool {
        crate::counts::dominates(current, other)
    }

    open spec fn bridges(
        sender: Map<NodeId, u64>,
        since: Map<NodeId, u64>,
        receiver: Map<NodeId, u64>,
    ) -> bool {
        true
    }

    open spec fn delta_agree(
        d: Map<NodeId, u64>,
        e: Map<NodeId, u64>,
    ) -> bool {
        true
    }

    open spec fn delta_valid(d: Map<NodeId, u64>) -> bool {
        true
    }

    fn copy_version(version: &VectorClock) -> (copy: VectorClock) {
        version.clone()
    }

    fn version(&self) -> (version: VectorClock) {
        self.clone()
    }

    fn delta_since(&self, since: &VectorClock) -> (delta: VectorClock) {
        VectorClock { clock: counts_since(&self.clock, &since.clock) }
    }

    fn merge_delta(&mut self, delta: VectorClock) {
        self.merge(delta);
    }

    fn is_empty_delta(delta: &VectorClock) -> (empty: bool) {
        delta.clock.is_empty()
    }

    fn version_includes(current: &VectorClock, other: &VectorClock) -> (included: bool) {
        current.dominates(other)
    }

    proof fn delta_catches_up(
        sender: Map<NodeId, u64>,
        since: Map<NodeId, u64>,
        receiver: Map<NodeId, u64>,
    ) {
        crate::counts::beyond_is_enough(sender, since, receiver);
    }

    proof fn delta_is_merge(
        sender: Map<NodeId, u64>,
        since: Map<NodeId, u64>,
        receiver: Map<NodeId, u64>,
    ) {
        crate::counts::beyond_is_enough(sender, since, receiver);
    }

    proof fn delta_commutative(
        a: Map<NodeId, u64>,
        d: Map<NodeId, u64>,
        e: Map<NodeId, u64>,
    ) {
        assert(Self::absorb(Self::absorb(a, d), e) =~= Self::absorb(Self::absorb(a, e), d));
    }

    proof fn delta_idempotent(a: Map<NodeId, u64>, d: Map<NodeId, u64>) {
        assert(Self::absorb(Self::absorb(a, d), d) =~= Self::absorb(a, d));
    }

    proof fn delta_keeps_valid(a: Map<NodeId, u64>, d: Map<NodeId, u64>) {
    }

    proof fn delta_of_is_valid(a: Map<NodeId, u64>, since: Map<NodeId, u64>) {
    }

    proof fn empty_delta_changes_nothing(a: Map<NodeId, u64>, d: Map<NodeId, u64>) {
        assert(Self::absorb(a, d) =~= a);
    }

    proof fn delta_since_own_version_is_empty(a: Map<NodeId, u64>) {
        assert(Self::delta_of(a, a).dom() =~= Set::empty());
    }

    proof fn version_includes_itself(v: Map<NodeId, u64>) {
    }

    proof fn version_includes_transitive(
        u: Map<NodeId, u64>,
        v: Map<NodeId, u64>,
        w: Map<NodeId, u64>,
    ) {
        crate::counts::dominates_transitive(u, v, w);
    }

    proof fn merge_advances_version(a: Map<NodeId, u64>, b: Map<NodeId, u64>) {
    }
}

/// The order of two clocks, component by component: one is before the other when none of its
/// components is greater and one is less; they are equal when all components are; and they are
/// concurrent when each has a component that is greater.
pub proof fn order_by_components(a: Map<NodeId, u64>, b: Map<NodeId, u64>)
    ensures
        order_of(a, b) == ClockOrder::Before <==> crate::counts::dominates(b, a) && exists|
            node: NodeId,
        |
            #[trigger] crate::counts::count(a, node) < crate::counts::count(b, node),
        order_of(a, b) == ClockOrder::After <==> order_of(b, a) == ClockOrder::Before,
        order_of(a, b) == ClockOrder::Equal <==> crate::counts::same_counts(a, b),
        order_of(a, b) == ClockOrder::Concurrent <==> (exists|node: NodeId|
            #[trigger] crate::counts::count(a, node) < crate::counts::count(b, node)) && (exists|
            node: NodeId,
        |
            #[trigger] crate::counts::count(b, node) < crate::counts::count(a, node)),
{
    crate::counts::same_means_both(a, b);
    if !crate::counts::dominates(a, b) {
        let node = choose|node: NodeId|
            !(#[trigger] crate::counts::count(a, node) >= crate::counts::count(b, node));
        assert(crate::counts::count(a, node) < crate::counts::count(b, node));
    }
    if !crate::counts::dominates(b, a) {
        let node = choose|node: NodeId|
            !(#[trigger] crate::counts::count(b, node) >= crate::counts::count(a, node));
        assert(crate::counts::count(b, node) < crate::counts::count(a, node));
    }
}

/// The greatest component: none is greater, and unless it is zero one component is that.
pub proof fn lamport_by_entries(clock: Map<NodeId, u64>, time: u64)
    ensures
        is_lamport(clock, time) <==> {
            &&& forall|node: NodeId| #[trigger]
                clock.contains_key(node) ==> clock[node] <= time
            &&& time > 0 ==> exists|node: NodeId| #[trigger]
                clock.contains_key(node) && clock[node] == time
        },
{
    if is_lamport(clock, time) {
        assert forall|node: NodeId| #[trigger] clock.contains_key(node) implies clock[node]
            <= time by {
            assert(crate::counts::count(clock, node) <= time);
        }
        if time > 0 {
            let node = choose|node: NodeId| #[trigger] crate::counts::count(clock, node) == time;
            assert(clock.contains_key(node));
        }
    }
    if (forall|node: NodeId| #[trigger] clock.contains_key(node) ==> clock[node] <= time) && (time
        > 0 ==> exists|node: NodeId| #[trigger]
        clock.contains_key(node) && clock[node] == time) {
        assert forall|node: NodeId| #[trigger] crate::counts::count(clock, node) <= time by {
            if clock.contains_key(node) {}
        }
        if time > 0 {
            let node = choose|node: NodeId| #[trigger]
                clock.contains_key(node) && clock[node] == time;
            assert(crate::counts::count(clock, node) == time);
        }
    }
}

/// A clock can tick, or tick `n` times, exactly where every component has the room for it.
pub proof fn room_by_entries(clock: Map<NodeId, u64>, n: nat)
    requires
        n <= u64::MAX,
    ensures
        can_tick(clock) <==> forall|node: NodeId| #[trigger]
            clock.contains_key(node) ==> clock[node] < u64::MAX,
        can_tick_times(clock, n) <==> forall|node: NodeId| #[trigger]
            clock.contains_key(node) ==> clock[node] + n <= u64::MAX,
{
    if can_tick(clock) {
        assert forall|node: NodeId| #[trigger] clock.contains_key(node) implies clock[node]
            < u64::MAX by {
            assert(crate::counts::count(clock, node) < u64::MAX);
        }
    }
    if forall|node: NodeId| #[trigger] clock.contains_key(node) ==> clock[node] < u64::MAX {
        assert forall|node: NodeId| #[trigger] crate::counts::count(clock, node) < u64::MAX by {
            if clock.contains_key(node) {}
        }
    }
    if can_tick_times(clock, n) {
        assert forall|node: NodeId| #[trigger] clock.contains_key(node) implies clock[node] + n
            <= u64::MAX by {
            assert(crate::counts::count(clock, node) + n <= u64::MAX);
        }
    }
    if forall|node: NodeId| #[trigger] clock.contains_key(node) ==> clock[node] + n <= u64::MAX {
        assert forall|node: NodeId| #[trigger] crate::counts::count(clock, node) + n
            <= u64::MAX by {
            if clock.contains_key(node) {}
        }
    }
}

/// A merge of clocks takes the greater component of each node; a delta since a version holds the
/// components that are greater than those of the version, as they are, and applying it is merging.
pub proof fn clock_merges_by_maximum(
    a: Map<NodeId, u64>,
    b: Map<NodeId, u64>,
    since: Map<NodeId, u64>,
)
    ensures
        VectorClock::lawful(),
        VectorClock::join(a, b) == crate::counts::join_counts(a, b),
        VectorClock::below(a, b) <==> crate::counts::dominates(b, a),
        VectorClock::version_of(a) == a,
        VectorClock::delta_of(a, since) == crate::counts::counts_beyond(a, since),
        VectorClock::absorb(a, b) == crate::counts::join_counts(a, b),
        VectorClock::covers(a, b) <==> crate::counts::dominates(a, b),
        VectorClock::vacuous(a) <==> forall|node: NodeId| !#[trigger] a.contains_key(node),
        VectorClock::valid(a),
        VectorClock::readable(a),
        VectorClock::agree(a, b),
        VectorClock::survives(a, b),
        VectorClock::adds_only(a, b),
        VectorClock::regroupable(a, b, since),
        VectorClock::bridges(a, since, b),
        VectorClock::is_versioned(a),
        VectorClock::delta_valid(a),
        VectorClock::delta_agree(a, b),
{
    if VectorClock::vacuous(a) {
        assert forall|node: NodeId| !#[trigger] a.contains_key(node) by {
            assert(!a.dom().contains(node));
        }
    }
    if forall|node: NodeId| !#[trigger] a.contains_key(node) {
        assert(a.dom() =~= Set::empty());
    }
}

} // verus!

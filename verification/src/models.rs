//! What the models of the data types stand for: the fields, as they are.
use crate::canvas::document::{CanvasDelta, CanvasDocument};
use crate::clocks::VectorClock;
use crate::counters::pn_counter::{PNCounter, PNCounterDelta, PNCounterVersion};
use crate::counters::GCounter;
use crate::maps::LWWMap;
use crate::net::registry::PeerRegistry;
use crate::registers::{LWWRegister, MVRegister};
use crate::sets::orset::{ORSet, ORSetDelta, Tag};
use crate::sets::{GSet, TwoPSet};
use crate::traits::DeltaCrdt;
use crate::NodeId;
use std::collections::BTreeMap;
use vstd::prelude::*;

verus! {

/// A registry is modelled by its fields.
pub proof fn registry_model<V>(registry: PeerRegistry<V>)
    ensures
        registry@.self_id == registry.self_id,
        registry@.self_addr == registry.self_addr,
        registry@.resolved == registry.resolved@,
        registry@.bootstraps == registry.bootstraps@,
        registry@.tombstones == registry.tombstones@,
        registry@.failures == registry.failure_counts@,
        registry@.sent == registry.last_sent@,
{
}

/// A document is modelled by its fields, and its version by the clock.
pub proof fn document_model(doc: CanvasDocument, version: VectorClock)
    ensures
        doc@.pixels == doc.pixels@,
        doc@.users == doc.users@,
        doc@.cursors == doc.cursors@,
        doc@.palette == doc.palette@,
        doc@.paint_counts == doc.paint_counts@,
        doc@.clock == doc.clock@,
        doc@.user_removals == doc.user_removals@,
        doc@.palette_removals == doc.palette_removals@,
        doc@.paint_times == doc.paint_times@,
        CanvasDocument::version_model(version) == version@,
{
}

/// A delta of a document is modelled by its fields, the rows by the map that they merge to.
pub proof fn delta_model(delta: CanvasDelta)
    ensures
        CanvasDocument::delta_model(delta) == delta@,
        delta@.clock == delta.clock@,
        delta@.pixels == crate::maps::lww_map::collapse(delta.pixels@),
        delta@.users == delta.users@,
        delta@.cursors == crate::maps::lww_map::collapse(delta.cursors@),
        delta@.palette == delta.palette@,
        delta@.paint_counts == delta.paint_counts@,
        delta@.user_removals == delta.user_removals@,
        delta@.palette_removals == delta.palette_removals@,
        delta@.paint_times == delta.paint_times@,
{
}

/// A set is modelled by the tags of its entries and its tombstones, a delta by its adds and its
/// tombstones.
pub proof fn set_model<T: Ord + Clone>(
    set: ORSet<T>,
    delta: ORSetDelta<T>,
    version: BTreeMap<NodeId, u64>,
    element: T,
    tag: Tag,
)
    ensures
        set@.active.contains_key(element) <==> set.entries@.contains_key(element),
        set.entries@.contains_key(element) ==> set@.active[element] == set.entries@[element]@,
        set@.removed == set.removed_tags@,
        delta@.adds.contains((element, tag)) <==> delta.adds@.contains((element, tag)),
        delta@.removed == delta.removed_tags@,
        ORSet::<T>::delta_model(delta) == delta@,
        ORSet::<T>::version_model(version) == version@,
{
}

/// The other types are modelled by their fields.
pub proof fn small_models<T: Ord + Clone, K: Ord + Clone, V: Clone + PartialEq>(
    clock: VectorClock,
    counter: GCounter,
    counts: BTreeMap<NodeId, u64>,
    pn: PNCounter,
    pn_delta: PNCounterDelta,
    pn_version: PNCounterVersion,
    grown: GSet<T>,
    phased: TwoPSet<T>,
    map: LWWMap<K, V>,
    register: LWWRegister<V>,
)
    ensures
        clock@ == clock.clock@,
        VectorClock::delta_model(clock) == clock@,
        VectorClock::version_model(clock) == clock@,
        counter@ == counter.counts@,
        GCounter::delta_model(counts) == counts@,
        GCounter::version_model(counts) == counts@,
        pn@.increments == pn.increments@,
        pn@.decrements == pn.decrements@,
        PNCounter::delta_model(pn_delta).increments == pn_delta.increments@,
        PNCounter::delta_model(pn_delta).decrements == pn_delta.decrements@,
        PNCounter::version_model(pn_version).increments == pn_version.increments@,
        PNCounter::version_model(pn_version).decrements == pn_version.decrements@,
        grown@ == grown.elements@,
        phased@.added == phased.added@,
        phased@.removed == phased.removed@,
        map@ == map.entries@,
        register@ == register,
{
}

/// A register of many values is modelled by its entries, in their order.
pub proof fn mv_model<T: Clone + PartialEq>(
    register: MVRegister<T>,
    version: Vec<VectorClock>,
    i: int,
)
    ensures
        register@.len() == register.entries@.len(),
        0 <= i < register@.len() ==> register@[i].0 == register.entries@[i].0@ && register@[i].1
            == register.entries@[i].1,
        MVRegister::<T>::delta_model(register) == register@,
        MVRegister::<T>::version_model(version).len() == version@.len(),
        0 <= i < version@.len() ==> MVRegister::<T>::version_model(version)[i] == version@[i]@,
{
}

/// Clocks are equal where they have the same count of every node; registers of many values where
/// they have as many writes and one holds each write of the other.
pub proof fn equality_of_models<T: Clone + PartialEq>(
    a: VectorClock,
    b: VectorClock,
    x: MVRegister<T>,
    y: MVRegister<T>,
)
    ensures
        vstd::std_specs::cmp::PartialEqSpec::eq_spec(&a, &b) <==> crate::counts::same_counts(
            a@,
            b@,
        ),
        vstd::std_specs::cmp::PartialEqSpec::eq_spec(&x, &y) <==> x@.len() == y@.len()
            && forall|i: int|
            0 <= i < x@.len() ==> crate::registers::mv_register::holds(
                y@,
                (#[trigger] x@[i]).0,
                x@[i].1,
            ),
{
}

} // verus!

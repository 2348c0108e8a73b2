//! When the tombstones of a set were made.
//!
//! A tombstone is a tag, and the tag says when the element was added. That is no help in telling
//! which tombstones a receiver lacks: one that has seen the add may not have seen the removal. So
//! the document dates every removal, and a delta carries the tombstones whose removal the receiver
//! has not seen.
use crate::collections::set_elements;
use crate::counts::get_count;
use crate::sets::orset::{ORSet, ORSetDelta, Tag, Tagged, TaggedDelta};
use crate::traits::Crdt;
use crate::NodeId;
use std::collections::{BTreeMap, BTreeSet};
use vstd::prelude::*;

verus! {

/// A tag that was removed, and the node and time of the removal.
pub type Removal = (Tag, Tag);

/// The removal of an element: each of its active tags, all at one time.
pub open spec fn removals_of<T>(set: Tagged<T>, element: T, stamp: Tag) -> Set<Removal> {
    Set::new(|removal: Removal| set.has(element, removal.0) && removal.1 == stamp)
}

/// The tags that were removed.
pub open spec fn removed_tags(removals: Set<Removal>) -> Set<Tag> {
    Set::new(|tag: Tag| exists|stamp: Tag| #[trigger] removals.contains((tag, stamp)))
}

/// The removals that are beyond the version `since`.
pub open spec fn removals_beyond(removals: Set<Removal>, since: Map<NodeId, u64>) -> Set<Removal> {
    Set::new(
        |removal: Removal|
            removals.contains(removal) && removal.1.1 > crate::counts::count(since, removal.1.0),
    )
}

/// What the set has beyond the version `since`: the adds by their tags, the tombstones by the
/// removals that made them.
pub open spec fn part_since<T>(
    set: Tagged<T>,
    removals: Set<Removal>,
    since: Map<NodeId, u64>,
) -> TaggedDelta<T> {
    TaggedDelta {
        adds: set.part_beyond(since).adds,
        removed: set.removed.intersect(removed_tags(removals_beyond(removals, since))),
    }
}

/// Every active tag was given at a time after zero, and none later than `clock` has seen of its
/// node.
pub open spec fn active_within<T>(set: Tagged<T>, clock: Map<NodeId, u64>) -> bool {
    forall|element: T, tag: Tag| #[trigger]
        set.has(element, tag) ==> 0 < tag.1 <= crate::counts::count(clock, tag.0)
}

/// Every add was made at a time after zero, and none later than `clock` has seen of its node.
pub open spec fn adds_within<T>(adds: Set<(T, Tag)>, clock: Map<NodeId, u64>) -> bool {
    forall|add: (T, Tag)| #[trigger]
        adds.contains(add) ==> 0 < add.1.1 <= crate::counts::count(clock, add.1.0)
}

/// Every tag was removed after it was given, and no removal is later than `clock` has seen of its
/// node.
pub open spec fn removals_within(removals: Set<Removal>, clock: Map<NodeId, u64>) -> bool {
    forall|removal: Removal| #[trigger]
        removals.contains(removal) ==> 0 < removal.0.1 < removal.1.1 <= crate::counts::count(
            clock,
            removal.1.0,
        )
}

/// What `since` covers of the sender's set, the receiver has: each active tag, active or removed,
/// each tombstone, and each removal.
pub open spec fn set_bridged<T>(
    sender: Tagged<T>,
    removals: Set<Removal>,
    since: Map<NodeId, u64>,
    receiver: Tagged<T>,
    known: Set<Removal>,
) -> bool {
    &&& forall|element: T, tag: Tag| #[trigger]
        sender.has(element, tag) && tag.1 <= crate::counts::count(since, tag.0) ==> receiver.has(
            element,
            tag,
        ) || receiver.removed.contains(tag)
    &&& forall|tag: Tag| #[trigger]
        sender.removed.contains(tag) && !removed_tags(removals_beyond(removals, since)).contains(
            tag,
        ) ==> receiver.removed.contains(tag)
    &&& forall|removal: Removal| #[trigger]
        removals.contains(removal) && removal.1.1 <= crate::counts::count(since, removal.1.0)
            ==> known.contains(removal)
}

/// Adds the removal of `element` at `stamp` to `removals`.
pub fn date_removal<T: Ord + Clone>(
    removals: &mut BTreeSet<Removal>,
    set: &ORSet<T>,
    element: &T,
    stamp: Tag,
)
    ensures
        crate::collections::lawful_key::<T>() ==> final(removals)@ == old(removals)@.union(
            removals_of(set@, *element, stamp),
        ),
{
    let ghost start = removals@;
    if let Some(tags) = set.entries.get(element) {
        let rows = set_elements(tags);
        let ghost listed = rows@.unref();
        for i in 0..rows.len()
            invariant
                listed == rows@.unref(),
                crate::collections::lists_set(listed, tags@),
                forall|removal: Removal| #[trigger]
                    removals@.contains(removal) <==> start.contains(removal) || (removal.1 == stamp
                        && exists|j: int| 0 <= j < i && #[trigger] listed[j] == removal.0),
        {
            let tag: Tag = *rows[i];
            assert(listed[i as int] == tag);
            removals.insert((tag, stamp));
        }
        assert(crate::collections::lawful_key::<T>() ==> set@.active.contains_key(*element)
            && set@.active[*element] == tags@);
    } else {
        assert(crate::collections::lawful_key::<T>() ==> !set@.active.contains_key(*element));
    }
    assert(crate::collections::lawful_key::<T>() ==> removals@ =~= start.union(
        removals_of(set@, *element, stamp),
    ));
}

/// The removals that are beyond `since`.
fn removals_since(removals: &BTreeSet<Removal>, since: &BTreeMap<NodeId, u64>) -> (kept:
    BTreeSet<Removal>)
    ensures
        kept@ == removals_beyond(removals@, since@),
{
    let rows = set_elements(removals);
    let ghost listed = rows@.unref();
    let mut kept: BTreeSet<Removal> = BTreeSet::new();
    for i in 0..rows.len()
        invariant
            listed == rows@.unref(),
            crate::collections::lists_set(listed, removals@),
            forall|removal: Removal| #[trigger]
                kept@.contains(removal) <==> removal.1.1 > crate::counts::count(
                    since@,
                    removal.1.0,
                ) && exists|j: int| 0 <= j < i && #[trigger] listed[j] == removal,
    {
        let removal: Removal = *rows[i];
        assert(listed[i as int] == removal);
        let known: u64 = get_count(since, &removal.1.0);
        if removal.1.1 > known {
            kept.insert(removal);
        }
    }
    assert(kept@ =~= removals_beyond(removals@, since@));
    kept
}

/// What the set has beyond `since`, and the removals that are beyond it.
pub fn set_since<T: Ord + Copy>(
    set: &ORSet<T>,
    removals: &BTreeSet<Removal>,
    since: &BTreeMap<NodeId, u64>,
) -> (part: (ORSetDelta<T>, BTreeSet<Removal>))
    ensures
        crate::collections::lawful_key::<T>() ==> part.0@ == part_since(set@, removals@, since@),
        part.1@ == removals_beyond(removals@, since@),
{
    let mut delta = set.copied_delta_since(since);
    let fresh = removals_since(removals, since);
    let rows = set_elements(&fresh);
    let ghost listed = rows@.unref();
    let mut tags: BTreeSet<Tag> = BTreeSet::new();
    for i in 0..rows.len()
        invariant
            listed == rows@.unref(),
            crate::collections::lists_set(listed, fresh@),
            forall|tag: Tag| #[trigger]
                tags@.contains(tag) <==> set@.removed.contains(tag) && exists|j: int|
                    0 <= j < i && (#[trigger] listed[j]).0 == tag,
    {
        let tag: Tag = rows[i].0;
        assert(listed[i as int].0 == tag);
        if set.removed_tags.contains(&tag) {
            tags.insert(tag);
        }
    }
    proof {
        let target = set@.removed.intersect(removed_tags(fresh@));
        assert forall|tag: Tag| tags@.contains(tag) == target.contains(tag) by {
            if tags@.contains(tag) {
                let j = choose|j: int| 0 <= j < listed.len() && (#[trigger] listed[j]).0 == tag;
                assert(fresh@.contains((tag, listed[j].1)));
            }
            if target.contains(tag) {
                let stamp = choose|stamp: Tag| #[trigger] fresh@.contains((tag, stamp));
                let j = choose|j: int|
                    0 <= j < listed.len() && #[trigger] listed[j] == (tag, stamp);
                assert(listed[j].0 == tag);
            }
        }
        assert(tags@ =~= target);
    }
    delta.removed_tags = tags;
    (delta, fresh)
}

/// The tags of two lots of removals together are those of each.
pub proof fn removed_tags_join(a: Set<Removal>, b: Set<Removal>)
    ensures
        removed_tags(a.union(b)) == removed_tags(a).union(removed_tags(b)),
{
    let left = removed_tags(a.union(b));
    let right = removed_tags(a).union(removed_tags(b));
    assert forall|tag: Tag| left.contains(tag) == right.contains(tag) by {
        if left.contains(tag) {
            let stamp = choose|stamp: Tag| #[trigger] a.union(b).contains((tag, stamp));
            assert(a.contains((tag, stamp)) || b.contains((tag, stamp)));
        }
        if removed_tags(a).contains(tag) {
            let stamp = choose|stamp: Tag| #[trigger] a.contains((tag, stamp));
            assert(a.union(b).contains((tag, stamp)));
        }
        if removed_tags(b).contains(tag) {
            let stamp = choose|stamp: Tag| #[trigger] b.contains((tag, stamp));
            assert(a.union(b).contains((tag, stamp)));
        }
    }
    assert(left =~= right);
}

/// The tags of the removal of an element are its active tags.
pub proof fn removed_tags_of_element<T>(set: Tagged<T>, element: T, stamp: Tag)
    ensures
        set.without(element).removed == set.removed.union(
            removed_tags(removals_of(set, element, stamp)),
        ),
{
    let tags = removed_tags(removals_of(set, element, stamp));
    assert forall|tag: Tag| tags.contains(tag) == set.has(element, tag) by {
        if set.has(element, tag) {
            assert(removals_of(set, element, stamp).contains((tag, stamp)));
        }
    }
    assert(set.without(element).removed =~= set.removed.union(tags));
}

/// A receiver that has what a version covers of the sender's set needs only what is beyond it.
pub proof fn part_since_is_enough<T: Ord + Clone>(
    sender: Tagged<T>,
    removals: Set<Removal>,
    since: Map<NodeId, u64>,
    receiver: Tagged<T>,
    known: Set<Removal>,
)
    requires
        set_bridged(sender, removals, since, receiver, known),
    ensures
        receiver.absorbed(part_since(sender, removals, since)) == ORSet::<T>::join(
            receiver,
            sender,
        ),
        known.union(removals_beyond(removals, since)) == known.union(removals),
{
    crate::sets::orset::part_is_enough::<T>(
        sender,
        part_since(sender, removals, since),
        receiver,
    );
    assert(known.union(removals_beyond(removals, since)) =~= known.union(removals));
}

/// A set has nothing beyond the clock that has seen all of it.
pub proof fn nothing_since<T: Ord + Clone>(
    set: Tagged<T>,
    removals: Set<Removal>,
    clock: Map<NodeId, u64>,
)
    requires
        active_within(set, clock),
        removals_within(removals, clock),
    ensures
        part_since(set, removals, clock).adds == Set::<(T, Tag)>::empty(),
        part_since(set, removals, clock).removed == Set::<Tag>::empty(),
        removals_beyond(removals, clock) == Set::<Removal>::empty(),
{
    let part = part_since(set, removals, clock);
    assert forall|add: (T, Tag)| !part.adds.contains(add) by {
        if set.has(add.0, add.1) {}
    }
    assert(part.adds =~= Set::empty());
    assert(removals_beyond(removals, clock) =~= Set::empty());
    assert(part.removed =~= Set::empty());
}

/// All of a dated set is beyond the version that has seen nothing.
pub proof fn everything_is_since_nothing<T>(
    set: Tagged<T>,
    removals: Set<Removal>,
    clock: Map<NodeId, u64>,
)
    requires
        active_within(set, clock),
        removals_within(removals, clock),
        set.removed == removed_tags(removals),
    ensures
        part_since(set, removals, Map::empty()) == set.everything(),
        removals_beyond(removals, Map::empty()) == removals,
{
    assert(removals_beyond(removals, Map::empty()) =~= removals);
    let part = part_since(set, removals, Map::empty());
    assert(part.adds =~= set.everything().adds) by {
        assert forall|add: (T, Tag)| set.everything().adds.contains(add) implies part.adds.contains(
            add,
        ) by {
            assert(set.has(add.0, add.1));
        }
    }
    assert(part.removed =~= set.removed);
}

} // verus!

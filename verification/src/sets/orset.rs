//! Observed-Remove Set (ORSet) CRDT.
//!
//! Solves the permanent removal limitation of [`TwoPSet`](super::TwoPSet) by tagging each add
//! operation with a unique identifier. Concurrent add and remove of the same element results in
//! the element being present.
use crate::collections::{
    add_all, exact_clone, into_entries, is_subset, lawful_key, map_entries, remove_all,
    set_elements,
};
use crate::counts::{counts_dominate, get_count};
use crate::traits::{Crdt, DeltaCrdt};
use crate::NodeId;
use std::collections::{BTreeMap, BTreeSet};
use vstd::prelude::*;

verus! {

/// Unique identifier for a single add operation: the node that added, and the sequence number
/// that it gave the operation. The pair is unique across all peers.
pub type Tag = (NodeId, u64);

/// An observed-remove set with add-wins.
///
/// Each add creates a unique [`Tag`]. Remove only tombstones tags that are currently visible. A
/// concurrent add (with an unseen tag) survives a concurrent remove.
#[derive(Debug, PartialEq)]
pub struct ORSet<T> where T: Ord + Clone {
    /// The active tags that keep each element alive.
    pub entries: BTreeMap<T, BTreeSet<Tag>>,
    /// Tags that have been removed, the tombstones. Grows unbounded.
    pub removed_tags: BTreeSet<Tag>,
}

/// Sparse delta for an [`ORSet`].
///
/// Both `adds` and `removed_tags` are filtered by the same per-node frontier: only tags whose
/// sequence number exceeds that of their node in the frontier are shipped. Once a peer has
/// absorbed a tombstone, later deltas omit it.
#[derive(Debug, PartialEq)]
pub struct ORSetDelta<T> where T: Ord + Clone {
    pub adds: Vec<(T, Tag)>,
    pub removed_tags: BTreeSet<Tag>,
}

/// The active tags of each element, and the tombstones.
#[verifier::reject_recursive_types(T)]
pub struct Tagged<T> {
    pub active: Map<T, Set<Tag>>,
    pub removed: Set<Tag>,
}

/// The adds and the tombstones of a delta.
#[verifier::reject_recursive_types(T)]
pub struct TaggedDelta<T> {
    pub adds: Set<(T, Tag)>,
    pub removed: Set<Tag>,
}

/// The tag sets behind the references to them.
pub open spec fn tag_map<T>(entries: Map<T, BTreeSet<Tag>>) -> Map<T, Set<Tag>> {
    entries.map_values(|tags: BTreeSet<Tag>| tags@)
}

/// `tag` is an active tag of `element`.
pub open spec fn tagged<T>(active: Map<T, Set<Tag>>, element: T, tag: Tag) -> bool {
    active.contains_key(element) && active[element].contains(tag)
}

/// The tags that satisfy `alive`, by element; elements without any are left out.
pub open spec fn active_where<T>(alive: spec_fn(T, Tag) -> bool) -> Map<T, Set<Tag>> {
    Map::new(
        |element: T| exists|tag: Tag| #[trigger] alive(element, tag),
        |element: T| Set::new(|tag: Tag| alive(element, tag)),
    )
}

impl<T> Tagged<T> {
    /// `tag` is an active tag of `element`.
    pub open spec fn has(self, element: T, tag: Tag) -> bool {
        tagged(self.active, element, tag)
    }

    /// The set has seen the tag, active or removed.
    pub open spec fn knows(self, tag: Tag) -> bool {
        self.removed.contains(tag) || exists|element: T| #[trigger] self.has(element, tag)
    }

    /// The elements of the set.
    pub open spec fn elements(self) -> Set<T> {
        self.active.dom()
    }

    /// The greatest sequence number seen of `node`.
    pub open spec fn last_seq(self, node: NodeId) -> u64 {
        choose|seq: u64| #[trigger]
            self.knows((node, seq)) && forall|other: u64| #[trigger]
                self.knows((node, other)) ==> other <= seq
    }

    /// The greatest sequence number seen, per node.
    pub open spec fn frontier(self) -> Map<NodeId, u64> {
        Map::new(
            |node: NodeId| exists|seq: u64| #[trigger] self.knows((node, seq)),
            |node: NodeId| self.last_seq(node),
        )
    }

    /// The set after the tag of a new add.
    pub open spec fn inserted(self, element: T, tag: Tag) -> Tagged<T> {
        let tags = if self.active.contains_key(element) {
            self.active[element]
        } else {
            Set::empty()
        };
        Tagged { active: self.active.insert(element, tags.insert(tag)), removed: self.removed }
    }

    /// The set after a removal: the tags that `element` had are tombstones.
    pub open spec fn without(self, element: T) -> Tagged<T> {
        if self.active.contains_key(element) {
            Tagged {
                active: self.active.remove(element),
                removed: self.removed.union(self.active[element]),
            }
        } else {
            self
        }
    }

    /// The whole set, as a delta.
    pub open spec fn everything(self) -> TaggedDelta<T> {
        TaggedDelta {
            adds: Set::new(|add: (T, Tag)| self.has(add.0, add.1)),
            removed: self.removed,
        }
    }

    /// The set after a delta: a tag is active if either side has it and neither has removed it.
    pub open spec fn absorbed(self, delta: TaggedDelta<T>) -> Tagged<T> {
        let removed = self.removed.union(delta.removed);
        Tagged {
            active: active_where(
                |element: T, tag: Tag|
                    (self.has(element, tag) || delta.adds.contains((element, tag)))
                        && !removed.contains(tag),
            ),
            removed,
        }
    }

    /// No tag is both active and removed, and every element has a tag.
    pub open spec fn is_settled(self) -> bool {
        &&& forall|element: T, tag: Tag| #[trigger]
            self.has(element, tag) ==> !self.removed.contains(tag)
        &&& forall|element: T| #[trigger]
            self.active.contains_key(element) ==> exists|tag: Tag| #[trigger]
                self.has(element, tag)
    }

    /// The tag is beyond the frontier `since`.
    pub open spec fn beyond(since: Map<NodeId, u64>, tag: Tag) -> bool {
        tag.1 > crate::counts::count(since, tag.0)
    }

    /// What the set has beyond the frontier `since`.
    pub open spec fn part_beyond(self, since: Map<NodeId, u64>) -> TaggedDelta<T> {
        TaggedDelta {
            adds: Set::new(
                |add: (T, Tag)| self.has(add.0, add.1) && Self::beyond(since, add.1),
            ),
            removed: Set::new(|tag: Tag| self.removed.contains(tag) && Self::beyond(since, tag)),
        }
    }
}

impl<T> View for ORSet<T> where T: Ord + Clone {
    type V = Tagged<T>;

    open spec fn view(&self) -> Tagged<T> {
        Tagged { active: tag_map(self.entries@), removed: self.removed_tags@ }
    }
}

impl<T> View for ORSetDelta<T> where T: Ord + Clone {
    type V = TaggedDelta<T>;

    open spec fn view(&self) -> TaggedDelta<T> {
        TaggedDelta { adds: self.adds@.to_set(), removed: self.removed_tags@ }
    }
}

impl<T> Clone for ORSet<T> where T: Ord + Clone {
    fn clone(&self) -> (copy: Self)
        ensures
            copy@ == self@,
    {
        ORSet { entries: self.entries.clone(), removed_tags: self.removed_tags.clone() }
    }
}

impl<T> Clone for ORSetDelta<T> where T: Ord + Clone {
    fn clone(&self) -> (copy: Self)
        ensures
            exact_clone::<T>() ==> copy@ == self@,
    {
        let mut adds: Vec<(T, Tag)> = Vec::new();
        for i in 0..self.adds.len()
            invariant
                adds@.len() == i,
                exact_clone::<T>() ==> adds@ == self.adds@.take(i as int),
        {
            let element = self.adds[i].0.clone();
            assert(cloned(self.adds@[i as int].0, element));
            adds.push((element, self.adds[i].1));
            assert(exact_clone::<T>() ==> adds@ =~= self.adds@.take(i + 1));
        }
        assert(self.adds@.take(self.adds@.len() as int) =~= self.adds@);
        ORSetDelta { adds, removed_tags: self.removed_tags.clone() }
    }
}

impl<T> Default for ORSet<T> where T: Ord + Clone {
    fn default() -> (set: Self)
        ensures
            set@ == (Tagged { active: Map::<T, Set<Tag>>::empty(), removed: Set::empty() }),
    {
        let set = ORSet { entries: BTreeMap::new(), removed_tags: BTreeSet::new() };
        assert(set@.active =~= Map::empty());
        set
    }
}

/// Adds tags to those of `element`.
fn add_tags<T: Ord>(entries: &mut BTreeMap<T, BTreeSet<Tag>>, element: T, tags: BTreeSet<Tag>)
    ensures
        lawful_key::<T>() ==> {
            let before = tag_map(old(entries)@);
            let after = tag_map(final(entries)@);
            let mine = if before.contains_key(element) {
                before[element]
            } else {
                Set::empty()
            };
            after == before.insert(element, mine.union(tags@))
        },
{
    let ghost before = tag_map(entries@);
    let ghost added = tags@;
    let mut mine: BTreeSet<Tag> = match entries.remove(&element) {
        Some(mine) => mine,
        None => BTreeSet::new(),
    };
    add_all(&mut mine, tags);
    let ghost all = mine@;
    entries.insert(element, mine);
    assert(lawful_key::<T>() ==> tag_map(entries@) =~= before.insert(element, all));
}

/// Drops the tags that are removed, and the elements that have none left.
fn settle<T: Ord>(entries: BTreeMap<T, BTreeSet<Tag>>, removed: &BTreeSet<Tag>) -> (kept: BTreeMap<
    T,
    BTreeSet<Tag>,
>)
    ensures
        lawful_key::<T>() ==> tag_map(kept@) == active_where(
            |element: T, tag: Tag|
                tagged(tag_map(entries@), element, tag) && !removed@.contains(tag),
        ),
{
    let ghost before = tag_map(entries@);
    let ghost start = entries@;
    let ghost alive = |element: T, tag: Tag|
        tagged(before, element, tag) && !removed@.contains(tag);
    let ghost target = active_where(alive);
    let rows = into_entries(entries);
    let mut kept: BTreeMap<T, BTreeSet<Tag>> = BTreeMap::new();
    for row in iter: rows
        invariant
            before == tag_map(start),
            alive == (|element: T, tag: Tag|
                tagged(before, element, tag) && !removed@.contains(tag)),
            target == active_where(alive),
            lawful_key::<T>() ==> {
                &&& crate::collections::lists_map(iter.seq(), start)
                &&& forall|element: T| #[trigger]
                    kept@.contains_key(element) ==> target.contains_key(element)
                        && kept@[element]@ == target[element]
                &&& forall|j: int|
                    #![trigger iter.seq()[j]]
                    0 <= j < iter.index() && target.contains_key(iter.seq()[j].0)
                        ==> kept@.contains_key(iter.seq()[j].0)
            },
    {
        let ghost at = iter.index();
        let (element, tags) = row;
        let ghost mine = tags@;
        let mut left = tags;
        remove_all(&mut left, removed);
        assert(lawful_key::<T>() ==> {
            &&& before.contains_key(element)
            &&& before[element] == mine
            &&& forall|tag: Tag| #[trigger] left@.contains(tag) <==> alive(element, tag)
        }) by {
            assert(iter.seq()[at] == row);
        }
        if !left.is_empty() {
            proof {
                if lawful_key::<T>() {
                    let tag = choose|tag: Tag| left@.contains(tag);
                    assert(exists|tag: Tag| left@.contains(tag)) by {
                        if forall|tag: Tag| !left@.contains(tag) {
                            assert(left@ =~= Set::empty());
                        }
                    }
                    assert(alive(element, tag));
                    assert(target.contains_key(element));
                    assert(left@ =~= target[element]);
                }
            }
            kept.insert(element, left);
        } else {
            proof {
                if lawful_key::<T>() && target.contains_key(element) {
                    let tag = choose|tag: Tag| #[trigger] alive(element, tag);
                    assert(left@.contains(tag));
                    assert(false);
                }
            }
        }
    }
    proof {
        if lawful_key::<T>() {
            assert forall|element: T| #[trigger] target.contains_key(element) implies
                kept@.contains_key(element) by {
                let tag = choose|tag: Tag| #[trigger] alive(element, tag);
                assert(start.contains_key(element));
            }
            assert(tag_map(kept@) =~= target);
        }
    }
    kept
}

impl<T> ORSet<T> where T: Ord + Clone {
    /// An empty set.
    pub fn new() -> (set: Self)
        ensures
            set@ == (Tagged { active: Map::<T, Set<Tag>>::empty(), removed: Set::empty() }),
    {
        Self::default()
    }

    /// Adds `element` with a tag stamped `(node_id, seq)`.
    ///
    /// `seq` must be monotonically increasing for a given `node_id` across all replicas; the
    /// result of [`VectorClock::increment`](crate::clocks::VectorClock::increment) is, and then
    /// the per-node tag frontier is part of the document's clock.
    pub fn insert(&mut self, element: T, node_id: &NodeId, seq: u64)
        ensures
            lawful_key::<T>() ==> final(self)@ == old(self)@.inserted(element, (*node_id, seq)),
    {
        let mut tags: BTreeSet<Tag> = BTreeSet::new();
        tags.insert((*node_id, seq));
        let ghost added = tags@;
        let ghost mine = if self@.active.contains_key(element) {
            self@.active[element]
        } else {
            Set::empty()
        };
        add_tags(&mut self.entries, element, tags);
        assert(lawful_key::<T>() ==> mine.union(added) =~= mine.insert((*node_id, seq)));
    }

    /// Removes `element`: the tags that it has here become tombstones. Returns whether it was
    /// in the set.
    pub fn remove(&mut self, element: &T) -> (was_present: bool)
        ensures
            lawful_key::<T>() ==> was_present == old(self)@.elements().contains(*element),
            lawful_key::<T>() ==> final(self)@ == old(self)@.without(*element),
    {
        let ghost before = self@;
        let taken = self.entries.remove(element);
        assert(lawful_key::<T>() ==> tag_map(self.entries@) =~= before.active.remove(*element));
        match taken {
            Some(tags) => {
                add_all(&mut self.removed_tags, tags);
                true
            },
            None => {
                assert(lawful_key::<T>() ==> before.active.remove(*element) =~= before.active);
                false
            },
        }
    }

    /// Whether `element` is in the set.
    pub fn contains(&self, element: &T) -> (found: bool)
        ensures
            lawful_key::<T>() ==> found == self@.elements().contains(*element),
    {
        self.entries.contains_key(element)
    }
}

/// What `copy` hands back is what it was given.
pub open spec fn copies_exactly<T, F: Fn(&T) -> T>(copy: F) -> bool {
    forall|x: &T, y: T| #[trigger] copy.ensures((x,), y) ==> y == *x
}

/// Appends to `adds` the tags of `element` that are beyond `since`.
fn push_beyond<T, F: Fn(&T) -> T>(
    adds: &mut Vec<(T, Tag)>,
    element: &T,
    tags: &BTreeSet<Tag>,
    since: &BTreeMap<NodeId, u64>,
    copy: &F,
)
    requires
        forall|x: &T| copy.requires((x,)),
    ensures
        copies_exactly::<T, F>(*copy) ==> {
            let new = final(adds)@.skip(old(adds)@.len() as int);
            &&& final(adds)@ == old(adds)@ + new
            &&& new.no_duplicates()
            &&& forall|add: (T, Tag)| #[trigger]
                new.contains(add) <==> add.0 == *element && tags@.contains(add.1)
                    && Tagged::<T>::beyond(since@, add.1)
        },
{
    let rows = set_elements(tags);
    let ghost listed = rows@.unref();
    let ghost start = adds@;
    let ghost mut new: Seq<(T, Tag)> = Seq::empty();
    assert(start + new =~= start);
    for i in 0..rows.len()
        invariant
            forall|x: &T| copy.requires((x,)),
            listed == rows@.unref(),
            crate::collections::lists_set(listed, tags@),
            copies_exactly::<T, F>(*copy) ==> {
                &&& adds@ == start + new
                &&& new.no_duplicates()
                &&& forall|add: (T, Tag)| #[trigger]
                    new.contains(add) <==> add.0 == *element && Tagged::<T>::beyond(
                        since@,
                        add.1,
                    ) && exists|j: int| 0 <= j < i && #[trigger] listed[j] == add.1
            },
    {
        let tag: Tag = *rows[i];
        assert(listed[i as int] == tag);
        let known: u64 = get_count(since, &tag.0);
        if tag.1 > known {
            let duplicate = copy(element);
            adds.push((duplicate, tag));
            proof {
                let before = new;
                new = new.push((*element, tag));
                if copies_exactly::<T, F>(*copy) {
                    assert(adds@ =~= start + new);
                    assert forall|add: (T, Tag)| #[trigger] new.contains(add) <==> add.0 == *element
                        && Tagged::<T>::beyond(since@, add.1) && exists|j: int|
                        0 <= j < i + 1 && #[trigger] listed[j] == add.1 by {
                        assert(new.contains(add) <==> before.contains(add) || add
                            == (*element, tag)) by {
                            if before.contains(add) {
                                let k = choose|k: int| 0 <= k < before.len() && before[k] == add;
                                assert(new[k] == add);
                            }
                            if add == (*element, tag) {
                                assert(new[before.len() as int] == add);
                            }
                            if new.contains(add) && add != (*element, tag) {
                                let k = choose|k: int| 0 <= k < new.len() && new[k] == add;
                                assert(before[k] == add);
                            }
                        }
                    }
                    assert(!before.contains((*element, tag)));
                }
            }
        }
    }
    proof {
        if copies_exactly::<T, F>(*copy) {
            assert(adds@.skip(start.len() as int) =~= new);
            assert forall|add: (T, Tag)| #[trigger] new.contains(add) <==> add.0 == *element
                && tags@.contains(add.1) && Tagged::<T>::beyond(since@, add.1) by {
                if tags@.contains(add.1) {
                    let j = choose|j: int| 0 <= j < listed.len() && #[trigger] listed[j] == add.1;
                }
            }
        }
    }
}

/// The tags that are beyond `since`.
fn tags_beyond(tags: &BTreeSet<Tag>, since: &BTreeMap<NodeId, u64>) -> (kept: BTreeSet<Tag>)
    ensures
        forall|tag: Tag| #[trigger]
            kept@.contains(tag) <==> tags@.contains(tag) && tag.1 > crate::counts::count(
                since@,
                tag.0,
            ),
{
    let rows = set_elements(tags);
    let ghost listed = rows@.unref();
    let mut kept: BTreeSet<Tag> = BTreeSet::new();
    for i in 0..rows.len()
        invariant
            listed == rows@.unref(),
            crate::collections::lists_set(listed, tags@),
            forall|tag: Tag| #[trigger]
                kept@.contains(tag) <==> tag.1 > crate::counts::count(since@, tag.0) && exists|
                    j: int,
                |
                    0 <= j < i && #[trigger] listed[j] == tag,
    {
        let tag: Tag = *rows[i];
        assert(listed[i as int] == tag);
        let known: u64 = get_count(since, &tag.0);
        if tag.1 > known {
            kept.insert(tag);
        }
    }
    kept
}

/// `frontier` holds the greatest sequence number per node among `tags`.
pub open spec fn is_frontier(frontier: Map<NodeId, u64>, tags: Set<Tag>) -> bool {
    &&& forall|tag: Tag| #[trigger]
        tags.contains(tag) ==> frontier.contains_key(tag.0) && tag.1 <= frontier[tag.0]
    &&& forall|node: NodeId| #[trigger]
        frontier.contains_key(node) ==> tags.contains((node, frontier[node]))
}

/// The greatest sequence number per node.
fn frontier_of_tags(tags: &BTreeSet<Tag>) -> (frontier: BTreeMap<NodeId, u64>)
    ensures
        is_frontier(frontier@, tags@),
{
    let rows = set_elements(tags);
    let ghost listed = rows@.unref();
    let mut frontier: BTreeMap<NodeId, u64> = BTreeMap::new();
    for i in 0..rows.len()
        invariant
            listed == rows@.unref(),
            crate::collections::lists_set(listed, tags@),
            forall|j: int|
                #![trigger listed[j]]
                0 <= j < i ==> frontier@.contains_key(listed[j].0) && listed[j].1
                    <= frontier@[listed[j].0],
            forall|node: NodeId| #[trigger]
                frontier@.contains_key(node) ==> tags@.contains((node, frontier@[node])),
    {
        let tag: Tag = *rows[i];
        assert(listed[i as int] == tag);
        let known: u64 = get_count(&frontier, &tag.0);
        if tag.1 >= known {
            frontier.insert(tag.0, tag.1);
        }
    }
    assert forall|tag: Tag| #[trigger] tags@.contains(tag) implies frontier@.contains_key(tag.0)
        && tag.1 <= frontier@[tag.0] by {
        let j = choose|j: int| 0 <= j < listed.len() && #[trigger] listed[j] == tag;
    }
    frontier
}

/// Tags that satisfy the same predicate are the same.
proof fn active_where_agrees<T>(f: spec_fn(T, Tag) -> bool, g: spec_fn(T, Tag) -> bool)
    requires
        forall|element: T, tag: Tag| #[trigger] f(element, tag) == g(element, tag),
    ensures
        active_where(f) == active_where(g),
{
    assert forall|element: T| active_where(f).contains_key(element)
        == active_where(g).contains_key(element) by {
        if active_where(f).contains_key(element) {
            let tag = choose|tag: Tag| #[trigger] f(element, tag);
            assert(g(element, tag));
        }
        if active_where(g).contains_key(element) {
            let tag = choose|tag: Tag| #[trigger] g(element, tag);
            assert(f(element, tag));
        }
    }
    assert forall|element: T| active_where(f).contains_key(element) implies active_where(f)[element]
        == active_where(g)[element] by {
        assert(active_where(f)[element] =~= active_where(g)[element]);
    }
    assert(active_where(f) =~= active_where(g));
}

/// What is active after a delta, tag by tag.
pub proof fn absorbed_has<T>(a: Tagged<T>, d: TaggedDelta<T>)
    ensures
        forall|element: T, tag: Tag| #[trigger]
            a.absorbed(d).has(element, tag) <==> (a.has(element, tag) || d.adds.contains(
                (element, tag),
            )) && !a.removed.contains(tag) && !d.removed.contains(tag),
        a.absorbed(d).removed == a.removed.union(d.removed),
        a.absorbed(d).is_settled(),
{
    let removed = a.removed.union(d.removed);
    let alive = |element: T, tag: Tag|
        (a.has(element, tag) || d.adds.contains((element, tag))) && !removed.contains(tag);
    assert forall|element: T, tag: Tag| #[trigger] a.absorbed(d).has(element, tag) <==> alive(
        element,
        tag,
    ) by {
        if alive(element, tag) {
            assert(active_where(alive).contains_key(element));
        }
    }
    assert forall|element: T| #[trigger] a.absorbed(d).active.contains_key(element) implies exists|
        tag: Tag,
    | #[trigger] a.absorbed(d).has(element, tag) by {
        let tag = choose|tag: Tag| #[trigger] alive(element, tag);
        assert(a.absorbed(d).has(element, tag));
    }
}

/// Settled sets with the same tags are the same.
pub proof fn settled_same<T>(a: Tagged<T>, b: Tagged<T>)
    requires
        a.is_settled(),
        b.is_settled(),
        a.removed =~= b.removed,
        forall|element: T, tag: Tag| #[trigger] a.has(element, tag) == b.has(element, tag),
    ensures
        a == b,
{
    assert forall|element: T| a.active.contains_key(element) == b.active.contains_key(element) by {
        if a.active.contains_key(element) {
            let tag = choose|tag: Tag| #[trigger] a.has(element, tag);
            assert(b.has(element, tag));
        }
        if b.active.contains_key(element) {
            let tag = choose|tag: Tag| #[trigger] b.has(element, tag);
            assert(a.has(element, tag));
        }
    }
    assert forall|element: T| a.active.contains_key(element) implies a.active[element]
        == b.active[element] by {
        assert forall|tag: Tag| a.active[element].contains(tag)
            == b.active[element].contains(tag) by {
            assert(a.has(element, tag) == b.has(element, tag));
        }
        assert(a.active[element] =~= b.active[element]);
    }
    assert(a.active =~= b.active);
}

/// A known tag is within the frontier, and the frontier is a known tag.
pub proof fn frontier_bounds<T>(a: Tagged<T>, tag: Tag)
    requires
        a.knows(tag),
    ensures
        a.frontier().contains_key(tag.0),
        tag.1 <= a.frontier()[tag.0],
        a.knows((tag.0, a.frontier()[tag.0])),
    decreases u64::MAX - tag.1,
{
    if forall|other: u64| #[trigger] a.knows((tag.0, other)) ==> other <= tag.1 {
        assert(a.knows((tag.0, tag.1)));
    } else {
        let other = choose|other: u64| #[trigger] a.knows((tag.0, other)) && other > tag.1;
        frontier_bounds(a, (tag.0, other));
    }
    assert(a.knows((tag.0, tag.1)));
}

/// A frontier of all known tags is the frontier.
proof fn frontier_is_unique<T>(a: Tagged<T>, frontier: Map<NodeId, u64>, tags: Set<Tag>)
    requires
        is_frontier(frontier, tags),
        forall|tag: Tag| #[trigger] tags.contains(tag) <==> a.knows(tag),
    ensures
        frontier == a.frontier(),
{
    assert forall|node: NodeId| frontier.contains_key(node) == a.frontier().contains_key(node) by {
        if frontier.contains_key(node) {
            assert(tags.contains((node, frontier[node])));
            assert(a.knows((node, frontier[node])));
        }
        if a.frontier().contains_key(node) {
            let seq = choose|seq: u64| #[trigger] a.knows((node, seq));
            assert(tags.contains((node, seq)));
        }
    }
    assert forall|node: NodeId| frontier.contains_key(node) implies frontier[node]
        == a.frontier()[node] by {
        assert(tags.contains((node, frontier[node])));
        frontier_bounds(a, (node, frontier[node]));
        assert(tags.contains((node, a.frontier()[node])));
    }
    assert(frontier =~= a.frontier());
}

impl<T> ORSet<T> where T: Ord + Clone {
    /// All tags that the set has seen, active or removed.
    fn known_tags(&self) -> (tags: BTreeSet<Tag>)
        ensures
            lawful_key::<T>() ==> forall|tag: Tag| #[trigger]
                tags@.contains(tag) <==> self@.knows(tag),
    {
        let rows = map_entries(&self.entries);
        let ghost listed = rows@.unref();
        let mut tags: BTreeSet<Tag> = self.removed_tags.clone();
        for i in 0..rows.len()
            invariant
                listed == rows@.unref(),
                lawful_key::<T>() ==> crate::collections::lists_map(listed, self.entries@),
                lawful_key::<T>() ==> forall|tag: Tag| #[trigger]
                    tags@.contains(tag) <==> self.removed_tags@.contains(tag) || exists|j: int|
                        0 <= j < i && (#[trigger] listed[j]).1@.contains(tag),
        {
            assert(listed[i as int] == (*rows@[i as int].0, *rows@[i as int].1));
            add_all(&mut tags, rows[i].1.clone());
        }
        proof {
            if lawful_key::<T>() {
                assert forall|tag: Tag| #[trigger] tags@.contains(tag) <==> self@.knows(tag) by {
                    if exists|j: int| 0 <= j < listed.len()
                        && (#[trigger] listed[j]).1@.contains(tag) {
                        let j = choose|j: int|
                            0 <= j < listed.len() && (#[trigger] listed[j]).1@.contains(tag);
                        assert(self@.has(listed[j].0, tag));
                    }
                    if exists|element: T| #[trigger] self@.has(element, tag) {
                        let element = choose|element: T| #[trigger] self@.has(element, tag);
                        assert(self.entries@.contains_key(element));
                        let j = choose|j: int|
                            0 <= j < listed.len() && (#[trigger] listed[j]).0 == element;
                        assert(listed[j].1@.contains(tag));
                    }
                }
            }
        }
        tags
    }

    /// Highest sequence number observed per node, across both active tags and tombstones.
    fn add_frontier(&self) -> (frontier: BTreeMap<NodeId, u64>)
        ensures
            lawful_key::<T>() ==> frontier@ == self@.frontier(),
    {
        let tags = self.known_tags();
        let frontier = frontier_of_tags(&tags);
        proof {
            if lawful_key::<T>() {
                frontier_is_unique(self@, frontier@, tags@);
            }
        }
        frontier
    }
}

impl<T> ORSet<T> where T: Ord + Clone {
    /// What the set holds beyond the version `since`, where `copy` copies an element.
    fn delta_with<F: Fn(&T) -> T>(&self, since: &BTreeMap<NodeId, u64>, copy: &F) -> (delta:
        ORSetDelta<T>)
        requires
            forall|x: &T| copy.requires((x,)),
        ensures
            lawful_key::<T>() && copies_exactly::<T, F>(*copy) ==> delta@ == self@.part_beyond(
                since@,
            ),
            lawful_key::<T>() && copies_exactly::<T, F>(*copy) ==> delta.adds@.no_duplicates(),
    {
        let ghost exact = lawful_key::<T>() && copies_exactly::<T, F>(*copy);
        let rows = map_entries(&self.entries);
        let ghost listed = rows@.unref();
        let mut adds: Vec<(T, Tag)> = Vec::new();
        for i in 0..rows.len()
            invariant
                forall|x: &T| copy.requires((x,)),
                exact == (lawful_key::<T>() && copies_exactly::<T, F>(*copy)),
                listed == rows@.unref(),
                lawful_key::<T>() ==> crate::collections::lists_map(listed, self.entries@),
                exact ==> {
                    &&& adds@.no_duplicates()
                    &&& forall|add: (T, Tag)| #[trigger]
                        adds@.contains(add) <==> Tagged::<T>::beyond(since@, add.1) && exists|
                            j: int,
                        |
                            0 <= j < i && (#[trigger] listed[j]).0 == add.0
                                && listed[j].1@.contains(add.1)
                },
        {
            let ghost before = adds@;
            assert(listed[i as int] == (*rows@[i as int].0, *rows@[i as int].1));
            push_beyond(&mut adds, rows[i].0, rows[i].1, since, copy);
            proof {
                if exact {
                    let new = adds@.skip(before.len() as int);
                    assert(adds@ == before + new);
                    assert forall|add: (T, Tag)| #[trigger] adds@.contains(add)
                        <==> Tagged::<T>::beyond(
                        since@,
                        add.1,
                    ) && exists|j: int|
                        0 <= j < i + 1 && (#[trigger] listed[j]).0 == add.0
                            && listed[j].1@.contains(
                            add.1,
                        ) by {
                        assert(adds@.contains(add)
                            <==> before.contains(add) || new.contains(add)) by {
                            if before.contains(add) {
                                let k = choose|k: int| 0 <= k < before.len() && before[k] == add;
                                assert(adds@[k] == add);
                            }
                            if new.contains(add) {
                                let k = choose|k: int| 0 <= k < new.len() && new[k] == add;
                                assert(adds@[before.len() + k] == add);
                            }
                            if adds@.contains(add) {
                                let k = choose|k: int| 0 <= k < adds@.len() && adds@[k] == add;
                                if k < before.len() {
                                    assert(before[k] == add);
                                } else {
                                    assert(new[k - before.len()] == add);
                                }
                            }
                        }
                        if new.contains(add) {
                            assert(listed[i as int].0 == add.0);
                        }
                    }
                    assert(adds@.no_duplicates()) by {
                        assert forall|j: int, k: int|
                            0 <= j < adds@.len() && 0 <= k < adds@.len() && j != k implies adds@[j]
                            != adds@[k] by {
                            assert forall|x: int, y: int|
                                0 <= x < before.len() <= y < adds@.len() implies adds@[x]
                                != adds@[y] by {
                                assert(adds@[y] == new[y - before.len()]);
                                assert(new.contains(adds@[y]));
                                assert(adds@[x] == before[x]);
                                assert(before.contains(before[x]));
                            }
                            if j >= before.len() && k >= before.len() {
                                assert(adds@[j] == new[j - before.len()]);
                                assert(adds@[k] == new[k - before.len()]);
                            }
                        }
                    }
                }
            }
        }
        let removed_tags = tags_beyond(&self.removed_tags, since);
        let delta = ORSetDelta { adds, removed_tags };
        proof {
            if exact {
                let target = self@.part_beyond(since@);
                assert forall|add: (T, Tag)| delta@.adds.contains(add)
                    == target.adds.contains(add) by {
                    if self@.has(add.0, add.1) {
                        assert(self.entries@.contains_key(add.0));
                        let j = choose|j: int|
                            0 <= j < listed.len() && (#[trigger] listed[j]).0 == add.0;
                        assert(listed[j].1@.contains(add.1));
                    }
                }
                assert(delta@.adds =~= target.adds);
                assert(delta@.removed =~= target.removed);
            }
        }
        delta
    }
}

impl<T> ORSet<T> where T: Ord + Copy {
    /// What the set holds beyond the version `since`, for elements that are plain copies.
    pub fn copied_delta_since(&self, since: &BTreeMap<NodeId, u64>) -> (delta: ORSetDelta<T>)
        ensures
            lawful_key::<T>() ==> delta@ == self@.part_beyond(since@),
            lawful_key::<T>() ==> delta.adds@.no_duplicates(),
    {
        let copy = |element: &T| -> (duplicate: T)
            ensures
                duplicate == *element,
            { *element };
        self.delta_with(since, &copy)
    }
}

/// Merge combines two replicas by keeping every tag that neither side has tombstoned.
impl<T> Crdt for ORSet<T> where T: Ord + Clone {
    type Value = BTreeSet<T>;

    open spec fn lawful() -> bool {
        lawful_key::<T>() && exact_clone::<T>()
    }

    open spec fn same(a: Tagged<T>, b: Tagged<T>) -> bool {
        a == b
    }

    open spec fn join(a: Tagged<T>, b: Tagged<T>) -> Tagged<T> {
        a.absorbed(b.everything())
    }

    open spec fn below(a: Tagged<T>, b: Tagged<T>) -> bool {
        &&& forall|element: T| #[trigger]
            a.active.contains_key(element) ==> b.active.contains_key(element)
                && a.active[element].subset_of(b.active[element])
        &&& a.removed.subset_of(b.removed)
    }

    open spec fn valid(a: Tagged<T>) -> bool {
        a.is_settled()
    }

    open spec fn agree(a: Tagged<T>, b: Tagged<T>) -> bool {
        true
    }

    /// No active tag of `a` is removed in `b`.
    open spec fn survives(a: Tagged<T>, b: Tagged<T>) -> bool {
        &&& a.is_settled()
        &&& forall|element: T, tag: Tag| #[trigger]
            a.has(element, tag) ==> !b.removed.contains(tag)
    }

    open spec fn adds_only(a: Tagged<T>, b: Tagged<T>) -> bool {
        true
    }

    open spec fn regroupable(a: Tagged<T>, b: Tagged<T>, c: Tagged<T>) -> bool {
        true
    }

    open spec fn readable(a: Tagged<T>) -> bool {
        true
    }

    open spec fn reads(a: Tagged<T>, value: BTreeSet<T>) -> bool {
        value@ == a.elements()
    }

    fn replica(&self) -> (copy: Self) {
        self.clone()
    }

    /// Returns the elements of the set: those that have at least one active tag.
    fn value(&self) -> (value: BTreeSet<T>)
        ensures
            lawful_key::<T>() ==> value@ == self@.elements(),
    {
        let rows = into_entries(self.entries.clone());
        let mut value: BTreeSet<T> = BTreeSet::new();
        for row in iter: rows
            invariant
                lawful_key::<T>() ==> crate::collections::lists_map(iter.seq(), self.entries@),
                lawful_key::<T>() ==> forall|element: T| #[trigger]
                    value@.contains(element) <==> exists|j: int|
                        0 <= j < iter.index() && (#[trigger] iter.seq()[j]).0 == element,
        {
            value.insert(row.0);
        }
        assert(lawful_key::<T>() ==> value@ =~= self@.elements());
        value
    }

    /// A tag survives if it exists in either replica and is not tombstoned by either replica.
    ///
    /// Both sides' removals are combined first, because all of them decide what survives. Then
    /// the other side's tags are added, the removed ones are dropped, and so is every element
    /// that has no tag left.
    fn merge(&mut self, other: Self)
        ensures
            lawful_key::<T>() ==> final(self)@ == Self::join(old(self)@, other@),
    {
        let ghost mine = self@;
        let ghost theirs = other@;
        add_all(&mut self.removed_tags, other.removed_tags);
        let ghost their_entries = other.entries@;
        let rows = into_entries(other.entries);
        let mut entries: BTreeMap<T, BTreeSet<Tag>> = BTreeMap::new();
        std::mem::swap(&mut entries, &mut self.entries);
        for row in iter: rows
            invariant
                theirs.active == tag_map(their_entries),
                lawful_key::<T>() ==> crate::collections::lists_map(iter.seq(), their_entries),
                lawful_key::<T>() ==> forall|element: T, tag: Tag| #[trigger]
                    tagged(tag_map(entries@), element, tag) <==> mine.has(element, tag) || exists|
                        j: int,
                    |
                        0 <= j < iter.index() && (#[trigger] iter.seq()[j]).0 == element
                            && iter.seq()[j].1@.contains(tag),
        {
            let ghost at = iter.index();
            assert(iter.seq()[at] == row);
            let (element, tags) = row;
            let ghost before = tag_map(entries@);
            let ghost added = tags@;
            add_tags(&mut entries, element, tags);
            proof {
                if lawful_key::<T>() {
                    let after = tag_map(entries@);
                    assert forall|e: T, tag: Tag| #[trigger] tagged(after, e, tag)
                        <==> mine.has(e, tag)
                        || exists|j: int|
                        0 <= j < at + 1 && (#[trigger] iter.seq()[j]).0 == e
                            && iter.seq()[j].1@.contains(tag) by {
                        assert(tagged(after, e, tag) <==> tagged(before, e, tag) || (e == element
                            && added.contains(tag)));
                        if e == element && added.contains(tag) {
                            assert(iter.seq()[at].0 == e && iter.seq()[at].1@.contains(tag));
                        }
                    }
                }
            }
        }
        let ghost both = tag_map(entries@);
        proof {
            if lawful_key::<T>() {
                assert forall|element: T, tag: Tag| #[trigger] tagged(both, element, tag)
                    <==> mine.has(
                    element,
                    tag,
                ) || theirs.has(element, tag) by {
                    if theirs.has(element, tag) {
                        assert(their_entries.contains_key(element));
                    }
                }
            }
        }
        self.entries = settle(entries, &self.removed_tags);
        proof {
            if lawful_key::<T>() {
                let removed = mine.removed.union(theirs.removed);
                let adds = theirs.everything().adds;
                active_where_agrees(
                    |element: T, tag: Tag|
                        tagged(both, element, tag) && !self.removed_tags@.contains(tag),
                    |element: T, tag: Tag|
                        (mine.has(element, tag) || adds.contains((element, tag)))
                            && !removed.contains(tag),
                );
            }
        }
    }

    /// Returns `true` if all active tags in `self` exist in `other`, and all tombstones in
    /// `self` exist in `other`.
    fn compare(&self, other: &Self) -> (included: bool)
        ensures
            lawful_key::<T>() ==> included == Self::below(self@, other@),
    {
        let rows = map_entries(&self.entries);
        let ghost listed = rows@.unref();
        for i in 0..rows.len()
            invariant
                listed == rows@.unref(),
                lawful_key::<T>() ==> crate::collections::lists_map(listed, self.entries@),
                lawful_key::<T>() ==> forall|j: int|
                    #![trigger listed[j]]
                    0 <= j < i ==> other.entries@.contains_key(listed[j].0)
                        && listed[j].1@.subset_of(other.entries@[listed[j].0]@),
        {
            assert(listed[i as int] == (*rows@[i as int].0, *rows@[i as int].1));
            let ghost element = listed[i as int].0;
            assert(lawful_key::<T>() ==> self@.active.contains_key(element));
            match other.entries.get(rows[i].0) {
                None => {
                    return false;
                },
                Some(other_tags) => {
                    if !is_subset(rows[i].1, other_tags) {
                        assert(lawful_key::<T>() ==> !self@.active[element].subset_of(
                            other@.active[element],
                        ));
                        return false;
                    }
                },
            }
        }
        proof {
            if lawful_key::<T>() {
                assert forall|element: T| #[trigger] self@.active.contains_key(element) implies
                    other@.active.contains_key(element)
                    && self@.active[element].subset_of(other@.active[element]) by {
                    assert(self.entries@.contains_key(element));
                }
            }
        }
        is_subset(&self.removed_tags, &other.removed_tags)
    }

    proof fn merge_commutative(a: Tagged<T>, b: Tagged<T>) {
        absorbed_has(a, b.everything());
        absorbed_has(b, a.everything());
        settled_same(Self::join(a, b), Self::join(b, a));
    }

    proof fn merge_associative(a: Tagged<T>, b: Tagged<T>, c: Tagged<T>) {
        absorbed_has(a, b.everything());
        absorbed_has(b, c.everything());
        absorbed_has(Self::join(a, b), c.everything());
        absorbed_has(a, Self::join(b, c).everything());
        settled_same(Self::join(Self::join(a, b), c), Self::join(a, Self::join(b, c)));
    }

    proof fn merge_idempotent(a: Tagged<T>) {
        absorbed_has(a, a.everything());
        settled_same(Self::join(a, a), a);
    }

    proof fn merge_keeps_valid(a: Tagged<T>, b: Tagged<T>) {
        absorbed_has(a, b.everything());
    }

    proof fn merge_includes(a: Tagged<T>, b: Tagged<T>) {
        absorbed_has(a, b.everything());
        absorbed_has(b, a.everything());
        settled_below(a, Self::join(a, b));
        settled_below(a, Self::join(b, a));
    }

    proof fn compare_reflexive(a: Tagged<T>) {
    }

    proof fn compare_transitive(a: Tagged<T>, b: Tagged<T>, c: Tagged<T>) {
    }

    proof fn compare_means_included(a: Tagged<T>, b: Tagged<T>) {
        absorbed_has(a, b.everything());
        let joined = Self::join(a, b);
        assert forall|element: T, tag: Tag| #[trigger] joined.has(element, tag)
            == b.has(element, tag) by {
            if a.has(element, tag) {
                assert(a.active.contains_key(element));
            }
        }
        settled_same(joined, b);
    }
}

/// A settled set is part of another when its tags and tombstones are.
proof fn settled_below<T: Ord + Clone>(a: Tagged<T>, b: Tagged<T>)
    requires
        a.is_settled(),
        a.removed.subset_of(b.removed),
        forall|element: T, tag: Tag| #[trigger] a.has(element, tag) ==> b.has(element, tag),
    ensures
        ORSet::<T>::below(a, b),
{
    assert forall|element: T| #[trigger] a.active.contains_key(element) implies
        b.active.contains_key(element)
        && a.active[element].subset_of(b.active[element]) by {
        let tag = choose|tag: Tag| #[trigger] a.has(element, tag);
        assert(b.has(element, tag));
        assert forall|tag: Tag| a.active[element].contains(tag) implies
            b.active[element].contains(tag) by {
            assert(a.has(element, tag));
        }
    }
}

/// Add wins: an element that one side added with a tag that neither side has removed is in the
/// merged set, even where the other side removed the element.
pub proof fn unseen_add_survives<T: Ord + Clone>(
    a: Tagged<T>,
    b: Tagged<T>,
    element: T,
    tag: Tag,
)
    requires
        a.has(element, tag) || b.has(element, tag),
        !a.removed.contains(tag),
        !b.removed.contains(tag),
    ensures
        ORSet::<T>::join(a, b).elements().contains(element),
        ORSet::<T>::join(a, b).has(element, tag),
{
    absorbed_has(a, b.everything());
    assert(ORSet::<T>::join(a, b).has(element, tag));
}

/// Observed remove: after a merge, no tag that either side has removed keeps an element alive.
pub proof fn removed_tag_stays_removed<T: Ord + Clone>(
    a: Tagged<T>,
    b: Tagged<T>,
    element: T,
    tag: Tag,
)
    requires
        a.removed.contains(tag) || b.removed.contains(tag),
    ensures
        !ORSet::<T>::join(a, b).has(element, tag),
        ORSet::<T>::join(a, b).removed.contains(tag),
{
    absorbed_has(a, b.everything());
}

/// An element that is added with a fresh tag is in the set, which stays settled.
pub proof fn insert_keeps_settled<T: Ord + Clone>(a: Tagged<T>, element: T, tag: Tag)
    requires
        a.is_settled(),
        !a.removed.contains(tag),
    ensures
        a.inserted(element, tag).elements() == a.elements().insert(element),
        a.inserted(element, tag).is_settled(),
{
    let after = a.inserted(element, tag);
    assert(after.elements() =~= a.elements().insert(element));
    assert(after.has(element, tag));
    assert forall|other: T| #[trigger] after.active.contains_key(other) implies
        exists|t: Tag| #[trigger]
        after.has(other, t) by {
        if other != element {
            let t = choose|t: Tag| #[trigger] a.has(other, t);
            assert(after.has(other, t));
        }
    }
    assert forall|other: T, t: Tag| #[trigger] after.has(other, t) implies
        !after.removed.contains(t) by {
        if !(other == element && t == tag) {
            assert(a.has(other, t));
        }
    }
}

/// A removed element is gone. The set stays settled, where no other element has one of the tags
/// that became tombstones.
pub proof fn remove_keeps_settled<T: Ord + Clone>(a: Tagged<T>, element: T)
    requires
        a.is_settled(),
        forall|other: T, tag: Tag|
            #![trigger a.has(other, tag)]
            a.has(other, tag) && a.has(element, tag) ==> other == element,
    ensures
        a.without(element).elements() == a.elements().remove(element),
        a.without(element).is_settled(),
{
    let gone = a.without(element);
    assert(gone.elements() =~= a.elements().remove(element));
    assert forall|other: T| #[trigger] gone.active.contains_key(other) implies
        exists|t: Tag| #[trigger]
        gone.has(other, t) by {
        assert(a.active.contains_key(other));
        let t = choose|t: Tag| #[trigger] a.has(other, t);
        assert(gone.has(other, t));
    }
    assert forall|other: T, t: Tag| #[trigger] gone.has(other, t) implies
        !gone.removed.contains(t) by {
        assert(a.has(other, t));
        if a.active.contains_key(element) && a.active[element].contains(t) {
            assert(a.has(element, t));
        }
    }
}

impl<T> DeltaCrdt for ORSet<T> where T: Ord + Clone {
    type Delta = ORSetDelta<T>;

    type Version = BTreeMap<NodeId, u64>;

    type DeltaModel = TaggedDelta<T>;

    type VersionModel = Map<NodeId, u64>;

    open spec fn delta_model(delta: ORSetDelta<T>) -> TaggedDelta<T> {
        delta@
    }

    open spec fn version_model(version: BTreeMap<NodeId, u64>) -> Map<NodeId, u64> {
        version@
    }

    open spec fn version_of(a: Tagged<T>) -> Map<NodeId, u64> {
        a.frontier()
    }

    open spec fn delta_of(a: Tagged<T>, since: Map<NodeId, u64>) -> TaggedDelta<T> {
        a.part_beyond(since)
    }

    open spec fn absorb(a: Tagged<T>, delta: TaggedDelta<T>) -> Tagged<T> {
        a.absorbed(delta)
    }

    open spec fn vacuous(delta: TaggedDelta<T>) -> bool {
        delta.adds.is_empty() && delta.removed.is_empty()
    }

    open spec fn is_versioned(a: Tagged<T>) -> bool {
        true
    }

    open spec fn covers(current: Map<NodeId, u64>, other: Map<NodeId, u64>) -> bool {
        crate::counts::dominates(current, other)
    }

    open spec fn bridges(
        sender: Tagged<T>,
        since: Map<NodeId, u64>,
        receiver: Tagged<T>,
    ) -> bool {
        sender.bridged_by(since, receiver)
    }

    open spec fn delta_agree(
        d: TaggedDelta<T>, e: TaggedDelta<T>) -> bool {
        true
    }

    open spec fn delta_valid(d: TaggedDelta<T>) -> bool {
        true
    }

    fn copy_version(version: &BTreeMap<NodeId, u64>) -> (copy: BTreeMap<NodeId, u64>) {
        version.clone()
    }

    fn version(&self) -> (version: BTreeMap<NodeId, u64>)
        ensures
            lawful_key::<T>() ==> version@ == self@.frontier(),
    {
        self.add_frontier()
    }

    fn delta_since(&self, since: &BTreeMap<NodeId, u64>) -> (delta: ORSetDelta<T>)
        ensures
            Self::lawful() ==> delta.adds@.no_duplicates(),
    {
        let copy = |element: &T| -> (duplicate: T)
            ensures
                cloned(*element, duplicate),
            { element.clone() };
        self.delta_with(since, &copy)
    }

    /// Mirrors the order of `merge`: tombstones first, then the new tags, and then what is
    /// removed is dropped.
    fn merge_delta(&mut self, delta: ORSetDelta<T>)
        ensures
            lawful_key::<T>() ==> final(self)@ == old(self)@.absorbed(delta@),
    {
        let ghost mine = self@;
        let ghost theirs = delta@;
        let ghost all_adds = delta.adds@;
        add_all(&mut self.removed_tags, delta.removed_tags);
        let mut entries: BTreeMap<T, BTreeSet<Tag>> = BTreeMap::new();
        std::mem::swap(&mut entries, &mut self.entries);
        for add in iter: delta.adds
            invariant
                iter.seq() == all_adds,
                lawful_key::<T>() ==> forall|element: T, tag: Tag| #[trigger]
                    tagged(tag_map(entries@), element, tag) <==> mine.has(element, tag) || exists|
                        j: int,
                    |
                        0 <= j < iter.index() && #[trigger] all_adds[j] == (element, tag),
        {
            let ghost at = iter.index();
            assert(all_adds[at] == add);
            let (element, tag) = add;
            let mut tags: BTreeSet<Tag> = BTreeSet::new();
            tags.insert(tag);
            let ghost before = tag_map(entries@);
            add_tags(&mut entries, element, tags);
            proof {
                if lawful_key::<T>() {
                    let after = tag_map(entries@);
                    assert forall|e: T, t: Tag| #[trigger] tagged(after, e, t) <==> mine.has(e, t)
                        || exists|j: int| 0 <= j < at + 1 && #[trigger] all_adds[j] == (e, t) by {
                        assert(tagged(after, e, t) <==> tagged(before, e, t) || (e == element && t
                            == tag));
                    }
                }
            }
        }
        let ghost both = tag_map(entries@);
        assert(lawful_key::<T>() ==> forall|element: T, tag: Tag| #[trigger]
            tagged(both, element, tag) <==> mine.has(element, tag) || theirs.adds.contains(
                (element, tag),
            ));
        self.entries = settle(entries, &self.removed_tags);
        proof {
            if lawful_key::<T>() {
                let removed = mine.removed.union(theirs.removed);
                active_where_agrees(
                    |element: T, tag: Tag|
                        tagged(both, element, tag) && !self.removed_tags@.contains(tag),
                    |element: T, tag: Tag|
                        (mine.has(element, tag) || theirs.adds.contains((element, tag)))
                            && !removed.contains(tag),
                );
            }
        }
    }

    fn is_empty_delta(delta: &ORSetDelta<T>) -> (empty: bool)
        ensures
            empty == Self::vacuous(delta@),
    {
        let empty = delta.adds.is_empty() && delta.removed_tags.is_empty();
        proof {
            if delta.adds@.len() == 0 {
                assert(delta@.adds =~= Set::empty());
            } else {
                assert(delta@.adds.contains(delta.adds@[0]));
            }
        }
        empty
    }

    fn version_includes(
        current: &BTreeMap<NodeId, u64>,
        other: &BTreeMap<NodeId, u64>,
    ) -> (included: bool)
        ensures
            included == Self::covers(current@, other@),
    {
        counts_dominate(current, other)
    }

    proof fn delta_catches_up(
        sender: Tagged<T>,
        since: Map<NodeId, u64>,
        receiver: Tagged<T>,
    ) {
        Self::delta_is_merge(sender, since, receiver);
        absorbed_has(receiver, sender.everything());
        settled_below(sender, Self::join(receiver, sender));
    }

    proof fn delta_is_merge(
        sender: Tagged<T>,
        since: Map<NodeId, u64>,
        receiver: Tagged<T>,
    ) {
        part_beyond_is_enough::<T>(sender, since, receiver);
    }

    proof fn delta_commutative(a: Tagged<T>, d: TaggedDelta<T>, e: TaggedDelta<T>) {
        absorbed_has(a, d);
        absorbed_has(a, e);
        absorbed_has(a.absorbed(d), e);
        absorbed_has(a.absorbed(e), d);
        settled_same(a.absorbed(d).absorbed(e), a.absorbed(e).absorbed(d));
    }

    proof fn delta_idempotent(a: Tagged<T>, d: TaggedDelta<T>) {
        absorbed_has(a, d);
        absorbed_has(a.absorbed(d), d);
        settled_same(a.absorbed(d).absorbed(d), a.absorbed(d));
    }

    proof fn delta_keeps_valid(a: Tagged<T>, d: TaggedDelta<T>) {
        absorbed_has(a, d);
    }

    proof fn delta_of_is_valid(a: Tagged<T>, since: Map<NodeId, u64>) {
    }

    proof fn empty_delta_changes_nothing(a: Tagged<T>, d: TaggedDelta<T>) {
        absorbed_has(a, d);
        settled_same(a.absorbed(d), a);
    }

    proof fn delta_since_own_version_is_empty(a: Tagged<T>) {
        let delta = a.part_beyond(a.frontier());
        assert forall|tag: Tag| a.knows(tag) implies !Tagged::<T>::beyond(a.frontier(), tag) by {
            frontier_bounds(a, tag);
        }
        assert forall|add: (T, Tag)| !delta.adds.contains(add) by {
            if a.has(add.0, add.1) {
                assert(a.knows(add.1));
            }
        }
        assert(delta.adds =~= Set::empty());
        assert forall|tag: Tag| !delta.removed.contains(tag) by {
            if a.removed.contains(tag) {
                assert(a.knows(tag));
            }
        }
        assert(delta.removed =~= Set::empty());
    }

    proof fn version_includes_itself(v: Map<NodeId, u64>) {
    }

    proof fn version_includes_transitive(
        u: Map<NodeId, u64>,
        v: Map<NodeId, u64>,
        w: Map<NodeId, u64>,
    ) {
        crate::counts::dominates_transitive(u, v, w);
    }

    proof fn merge_advances_version(a: Tagged<T>, b: Tagged<T>) {
        let joined = Self::join(a, b);
        absorbed_has(a, b.everything());
        assert forall|tag: Tag| a.knows(tag) || b.knows(tag) implies joined.knows(tag) by {
            if !joined.removed.contains(tag) {
                if exists|element: T| #[trigger] a.has(element, tag) {
                    let element = choose|element: T| #[trigger] a.has(element, tag);
                    assert(joined.has(element, tag));
                } else {
                    let element = choose|element: T| #[trigger] b.has(element, tag);
                    assert(joined.has(element, tag));
                }
            }
        }
        frontier_grows(a, joined);
        frontier_grows(b, joined);
    }
}

/// Knowing more tags never takes the frontier back.
proof fn frontier_grows<T>(a: Tagged<T>, b: Tagged<T>)
    requires
        forall|tag: Tag| a.knows(tag) ==> #[trigger] b.knows(tag),
    ensures
        crate::counts::dominates(b.frontier(), a.frontier()),
{
    assert forall|node: NodeId| #[trigger] crate::counts::count(b.frontier(), node)
        >= crate::counts::count(a.frontier(), node) by {
        if a.frontier().contains_key(node) {
            let seq = choose|seq: u64| #[trigger] a.knows((node, seq));
            frontier_bounds(a, (node, seq));
            let last = a.frontier()[node];
            assert(a.knows((node, last)));
            assert(b.knows((node, last)));
            frontier_bounds(b, (node, last));
        }
    }
}

impl<T> Tagged<T> {
    /// What this set has within the frontier `since`, `receiver` has too: each such tombstone,
    /// and each such active tag, active or removed.
    pub open spec fn bridged_by(self, since: Map<NodeId, u64>, receiver: Tagged<T>) -> bool {
        &&& forall|element: T, tag: Tag| #[trigger]
            self.has(element, tag) && !Self::beyond(since, tag) ==> receiver.has(element, tag)
                || receiver.removed.contains(tag)
        &&& forall|tag: Tag| #[trigger]
            self.removed.contains(tag) && !Self::beyond(since, tag) ==> receiver.removed.contains(
                tag,
            )
    }
}

/// A receiver needs no more of the sender than what it has not: an active tag that it has, active
/// or removed, and a tombstone that it has can be left out.
pub proof fn part_is_enough<T: Ord + Clone>(
    sender: Tagged<T>,
    part: TaggedDelta<T>,
    receiver: Tagged<T>,
)
    requires
        forall|add: (T, Tag)| #[trigger] part.adds.contains(add) ==> sender.has(add.0, add.1),
        part.removed.subset_of(sender.removed),
        forall|element: T, tag: Tag| #[trigger]
            sender.has(element, tag) ==> part.adds.contains((element, tag)) || receiver.has(
                element,
                tag,
            ) || receiver.removed.contains(tag),
        forall|tag: Tag| #[trigger]
            sender.removed.contains(tag) ==> part.removed.contains(tag)
                || receiver.removed.contains(tag),
    ensures
        receiver.absorbed(part) == ORSet::<T>::join(receiver, sender),
{
    let left = receiver.absorbed(part);
    let right = ORSet::<T>::join(receiver, sender);
    absorbed_has(receiver, part);
    absorbed_has(receiver, sender.everything());
    assert(left.removed =~= right.removed) by {
        assert forall|tag: Tag| left.removed.contains(tag) == right.removed.contains(tag) by {
            if sender.removed.contains(tag) {}
        }
    }
    assert forall|element: T, tag: Tag| #[trigger] left.has(element, tag)
        == right.has(element, tag) by {
        assert(left.removed.contains(tag) == right.removed.contains(tag));
        if sender.has(element, tag) {}
        if part.adds.contains((element, tag)) {}
    }
    settled_same(left, right);
}

/// A receiver that has all of the sender within a frontier needs only the part beyond it.
pub proof fn part_beyond_is_enough<T: Ord + Clone>(
    sender: Tagged<T>,
    since: Map<NodeId, u64>,
    receiver: Tagged<T>,
)
    requires
        sender.bridged_by(since, receiver),
    ensures
        receiver.absorbed(sender.part_beyond(since)) == ORSet::<T>::join(receiver, sender),
{
    part_is_enough::<T>(sender, sender.part_beyond(since), receiver);
}

/// What a set has, knows and holds, by its active tags and its tombstones.
pub proof fn set_by_tags<T>(a: Tagged<T>, element: T, tag: Tag)
    ensures
        a.has(element, tag) <==> a.active.contains_key(element) && a.active[element].contains(tag),
        a.elements().contains(element) <==> a.active.contains_key(element),
        a.knows(tag) <==> a.removed.contains(tag) || exists|e: T| #[trigger]
            a.active.contains_key(e) && a.active[e].contains(tag),
{
    if exists|e: T| #[trigger] a.active.contains_key(e) && a.active[e].contains(tag) {
        let e = choose|e: T| #[trigger] a.active.contains_key(e) && a.active[e].contains(tag);
        assert(a.has(e, tag));
    }
    if a.knows(tag) && !a.removed.contains(tag) {
        let e = choose|e: T| #[trigger] a.has(e, tag);
        assert(a.active.contains_key(e));
    }
}

/// An add puts the element in the set with its tag. Its other tags, every other element with its
/// tags, and the tombstones stay as they were.
pub proof fn add_is_of_one_element<T>(a: Tagged<T>, element: T, tag: Tag, other: T)
    ensures
        ({
            let after = a.inserted(element, tag);
            &&& after.active.contains_key(element)
            &&& after.active[element].contains(tag)
            &&& forall|t: Tag|
                t != tag ==> (#[trigger] after.active[element].contains(t)
                    <==> a.active.contains_key(element) && a.active[element].contains(t))
            &&& other != element ==> (after.active.contains_key(other)
                <==> a.active.contains_key(other))
            &&& other != element && after.active.contains_key(other) ==> after.active[other]
                == a.active[other]
            &&& after.removed == a.removed
        }),
{
}

/// A removal takes the element from the set and makes its tags tombstones. Every other element
/// with its tags stays, and so does every earlier tombstone; there are no others.
pub proof fn removal_is_of_one_element<T>(a: Tagged<T>, element: T, other: T)
    ensures
        ({
            let after = a.without(element);
            &&& !after.active.contains_key(element)
            &&& forall|tag: Tag| #[trigger]
                after.removed.contains(tag) <==> a.removed.contains(tag) || (
                a.active.contains_key(element) && a.active[element].contains(tag))
            &&& other != element ==> (after.active.contains_key(other)
                <==> a.active.contains_key(other))
            &&& after.active.contains_key(other) ==> after.active[other] == a.active[other]
        }),
{
}

/// After a merge a tag keeps an element alive exactly where it did on either side and neither side
/// has removed the tag; an element is in the set exactly where a tag keeps it alive; and the
/// tombstones are those of both sides.
pub proof fn merge_goes_by_tags<T: Ord + Clone>(a: Tagged<T>, b: Tagged<T>, element: T, tag: Tag)
    ensures
        ({
            let after = ORSet::<T>::join(a, b);
            let alive = |e: T, t: Tag|
                ((a.active.contains_key(e) && a.active[e].contains(t)) || (b.active.contains_key(e)
                    && b.active[e].contains(t))) && !a.removed.contains(t) && !b.removed.contains(
                    t,
                );
            &&& after.active.contains_key(element) && after.active[element].contains(tag)
                <==> alive(element, tag)
            &&& after.active.contains_key(element) <==> exists|t: Tag| #[trigger]
                alive(element, t)
            &&& after.removed.contains(tag) <==> a.removed.contains(tag) || b.removed.contains(tag)
        }),
{
    let after = ORSet::<T>::join(a, b);
    let alive = |e: T, t: Tag|
        ((a.active.contains_key(e) && a.active[e].contains(t)) || (b.active.contains_key(e)
            && b.active[e].contains(t))) && !a.removed.contains(t) && !b.removed.contains(t);
    absorbed_has(a, b.everything());
    assert(after.has(element, tag) <==> alive(element, tag));
    if after.active.contains_key(element) {
        let t = choose|t: Tag| #[trigger] after.has(element, t);
        assert(alive(element, t));
    }
    if exists|t: Tag| #[trigger] alive(element, t) {
        let t = choose|t: Tag| #[trigger] alive(element, t);
        assert(after.has(element, t));
    }
}

/// The same of a delta, which brings adds and tombstones.
pub proof fn delta_goes_by_tags<T>(a: Tagged<T>, d: TaggedDelta<T>, element: T, tag: Tag)
    ensures
        ({
            let after = a.absorbed(d);
            let alive = |e: T, t: Tag|
                ((a.active.contains_key(e) && a.active[e].contains(t)) || d.adds.contains((e, t)))
                    && !a.removed.contains(t) && !d.removed.contains(t);
            &&& after.active.contains_key(element) && after.active[element].contains(tag)
                <==> alive(element, tag)
            &&& after.active.contains_key(element) <==> exists|t: Tag| #[trigger]
                alive(element, t)
            &&& after.removed.contains(tag) <==> a.removed.contains(tag) || d.removed.contains(tag)
        }),
{
    let after = a.absorbed(d);
    let alive = |e: T, t: Tag|
        ((a.active.contains_key(e) && a.active[e].contains(t)) || d.adds.contains((e, t)))
            && !a.removed.contains(t) && !d.removed.contains(t);
    absorbed_has(a, d);
    assert(after.has(element, tag) <==> alive(element, tag));
    if after.active.contains_key(element) {
        let t = choose|t: Tag| #[trigger] after.has(element, t);
        assert(alive(element, t));
    }
    if exists|t: Tag| #[trigger] alive(element, t) {
        let t = choose|t: Tag| #[trigger] alive(element, t);
        assert(after.has(element, t));
    }
}

/// A delta since a version holds the active tags, with their elements, and the tombstones that are
/// numbered higher than what the version has of their node, and nothing else.
pub proof fn delta_is_what_is_new<T>(a: Tagged<T>, since: Map<NodeId, u64>, element: T, tag: Tag)
    ensures
        ({
            let new = tag.1 > if since.contains_key(tag.0) {
                since[tag.0]
            } else {
                0
            };
            let part = a.part_beyond(since);
            &&& part.adds.contains((element, tag)) <==> a.active.contains_key(element)
                && a.active[element].contains(tag) && new
            &&& part.removed.contains(tag) <==> a.removed.contains(tag) && new
        }),
{
}

/// The version of a set has, of each node, the highest number that a tag of the set has, active or
/// removed; and nothing of a node of which the set has no tag.
pub proof fn version_is_highest_number<T: Ord + Clone>(a: Tagged<T>, node: NodeId, number: u64)
    ensures
        ORSet::<T>::version_of(a).contains_key(node) <==> exists|n: u64| #[trigger]
            a.knows((node, n)),
        a.knows((node, number)) ==> number <= ORSet::<T>::version_of(a)[node],
        ORSet::<T>::version_of(a).contains_key(node) ==> a.knows(
            (node, ORSet::<T>::version_of(a)[node]),
        ),
{
    if exists|n: u64| #[trigger] a.knows((node, n)) {
        let n = choose|n: u64| #[trigger] a.knows((node, n));
        frontier_bounds(a, (node, n));
    }
    if a.knows((node, number)) {
        frontier_bounds(a, (node, number));
    }
}

/// A set merges, is compared, is read and has deltas tag by tag.
pub proof fn set_goes_by_tags<T: Ord + Clone>(
    a: Tagged<T>,
    b: Tagged<T>,
    c: Tagged<T>,
    d: TaggedDelta<T>,
    since: Map<NodeId, u64>,
    value: BTreeSet<T>,
)
    ensures
        ORSet::<T>::lawful() <==> lawful_key::<T>() && exact_clone::<T>(),
        ORSet::<T>::reads(a, value) <==> forall|x: T| #[trigger]
            value@.contains(x) <==> a.active.contains_key(x),
        ORSet::<T>::below(a, b) <==> (forall|x: T, tag: Tag| #[trigger]
            a.has(x, tag) ==> b.has(x, tag)) && (forall|x: T| #[trigger]
            a.active.contains_key(x) ==> b.active.contains_key(x)) && (forall|tag: Tag| #[trigger]
            a.removed.contains(tag) ==> b.removed.contains(tag)),
        ORSet::<T>::same(a, b) <==> a == b,
        ORSet::<T>::delta_of(a, since) == a.part_beyond(since),
        ORSet::<T>::absorb(a, d) == a.absorbed(d),
        ORSet::<T>::vacuous(d) <==> (forall|add: (T, Tag)| !#[trigger] d.adds.contains(add)) && (
        forall|tag: Tag| !#[trigger] d.removed.contains(tag)),
        ORSet::<T>::covers(a.frontier(), since) <==> crate::counts::dominates(a.frontier(), since),
        ORSet::<T>::valid(a) <==> (forall|x: T, tag: Tag| #[trigger]
            a.has(x, tag) ==> !a.removed.contains(tag)) && (forall|x: T| #[trigger]
            a.active.contains_key(x) ==> exists|tag: Tag| #[trigger] a.has(x, tag)),
        ORSet::<T>::survives(a, b) <==> ORSet::<T>::valid(a) && forall|x: T, tag: Tag| #[trigger]
            a.has(x, tag) ==> !b.removed.contains(tag),
        ORSet::<T>::agree(a, b),
        ORSet::<T>::adds_only(a, b),
        ORSet::<T>::regroupable(a, b, c),
        ORSet::<T>::readable(a),
        ORSet::<T>::is_versioned(a),
        ORSet::<T>::delta_valid(d),
        ORSet::<T>::delta_agree(d, d),
{
    if forall|x: T| #[trigger] value@.contains(x) <==> a.active.contains_key(x) {
        assert(value@ =~= a.elements());
    }
    if (forall|x: T, tag: Tag| #[trigger] a.has(x, tag) ==> b.has(x, tag)) && (forall|x: T|
        #[trigger] a.active.contains_key(x) ==> b.active.contains_key(x)) {
        assert forall|x: T| #[trigger] a.active.contains_key(x) implies a.active[x].subset_of(
            b.active[x],
        ) by {
            assert forall|tag: Tag| a.active[x].contains(tag) implies b.active[x].contains(tag) by {
                assert(a.has(x, tag));
            }
        }
    }
    if ORSet::<T>::below(a, b) {
        assert forall|x: T, tag: Tag| #[trigger] a.has(x, tag) implies b.has(x, tag) by {
            assert(a.active.contains_key(x));
        }
    }
    if ORSet::<T>::vacuous(d) {
        assert forall|add: (T, Tag)| !#[trigger] d.adds.contains(add) by {}
        assert forall|tag: Tag| !#[trigger] d.removed.contains(tag) by {}
    }
    if (forall|add: (T, Tag)| !#[trigger] d.adds.contains(add)) && (forall|tag: Tag|
        !#[trigger] d.removed.contains(tag)) {
        assert(d.adds =~= Set::empty());
        assert(d.removed =~= Set::empty());
    }
}

} // verus!

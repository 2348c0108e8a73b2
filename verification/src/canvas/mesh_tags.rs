//! What holds of the users and the palette of all the nodes of a mesh, however they gossip.
use super::document::{Canvas, CanvasDocument};
use super::laws::{has_room, updated, Update};
use super::mesh::{Holder, Mesh, Step};
use super::mesh_removals::covered_known;
use super::removals::{part_since, removed_tags, Removal};
use crate::sets::orset::{Tag, Tagged, TaggedDelta};
use crate::traits::{Crdt, DeltaCrdt};
use crate::NodeId;
use vstd::prelude::*;

verus! {

/// `a` knows, active or removed, the tags of `b` that `clock` covers.
pub open spec fn knows_covered<T>(a: Tagged<T>, clock: Map<NodeId, u64>, b: Tagged<T>) -> bool {
    forall|tag: Tag|
        #![trigger a.knows(tag)]
        #![trigger b.knows(tag)]
        b.knows(tag) && tag.1 <= crate::counts::count(clock, tag.0) ==> a.knows(tag)
}

/// `a` knows the users' and the palette's tags of `b` that the clock of `a` covers.
pub open spec fn has_covered_tags(a: Canvas, b: Canvas) -> bool {
    &&& knows_covered(a.users, a.clock, b.users)
    &&& knows_covered(a.palette, a.clock, b.palette)
}

/// Every tag was given at a time after zero, and none later than `clock` has seen of its node.
pub open spec fn tagged_within<T>(set: Tagged<T>, clock: Map<NodeId, u64>) -> bool {
    forall|tag: Tag| #[trigger]
        set.knows(tag) ==> 0 < tag.1 <= crate::counts::count(clock, tag.0)
}

/// No tag is from a time that the clock has not seen.
pub open spec fn tags_within_clock(a: Canvas) -> bool {
    tagged_within(a.users, a.clock) && tagged_within(a.palette, a.clock)
}

impl Mesh {
    /// The invariant: every canvas knows the tags of every other canvas that its clock covers, and
    /// no tag is from a time that its canvas has not seen.
    pub open spec fn tags_consistent(self) -> bool {
        &&& forall|a: Holder, b: Holder|
            #![trigger self.has(a), self.has(b)]
            self.has(a) && self.has(b) ==> has_covered_tags(self.canvas(b), self.canvas(a))
        &&& forall|a: Holder| #[trigger] self.has(a) ==> tags_within_clock(self.canvas(a))
    }
}

/// What is known after a delta was known before, or is in the delta.
proof fn absorbed_knows<T>(a: Tagged<T>, d: TaggedDelta<T>, tag: Tag)
    ensures
        a.absorbed(d).knows(tag) <==> a.knows(tag) || d.removed.contains(tag) || exists|element: T|
            #[trigger] d.adds.contains((element, tag)),
{
    let after = a.absorbed(d);
    crate::sets::orset::absorbed_has(a, d);
    if after.knows(tag) && !after.removed.contains(tag) {
        let element = choose|element: T| #[trigger] after.has(element, tag);
        assert(a.has(element, tag) || d.adds.contains((element, tag)));
    }
    if a.knows(tag) && !after.removed.contains(tag) {
        let element = choose|element: T| #[trigger] a.has(element, tag);
        assert(after.has(element, tag));
    }
    if exists|element: T| #[trigger] d.adds.contains((element, tag)) {
        let element = choose|element: T| #[trigger] d.adds.contains((element, tag));
        if !after.removed.contains(tag) {
            assert(after.has(element, tag));
        }
    }
}

/// What is known after a delta of the part beyond a version, by a receiver that has the removals
/// that its clock covers.
proof fn absorbed_part_knows<T>(
    a: Tagged<T>,
    known: Set<Removal>,
    clock: Map<NodeId, u64>,
    b: Tagged<T>,
    removals: Set<Removal>,
    since: Map<NodeId, u64>,
)
    requires
        a.removed == removed_tags(known),
        b.removed == removed_tags(removals),
        covered_known(known, clock, removals),
        crate::counts::dominates(clock, since),
    ensures
        ({
            let after = a.absorbed(part_since(b, removals, since));
            &&& forall|tag: Tag| #[trigger] a.knows(tag) ==> after.knows(tag)
            &&& forall|tag: Tag| #[trigger]
                b.knows(tag) && Tagged::<T>::beyond(since, tag) ==> after.knows(tag)
        }),
{
    let part = part_since(b, removals, since);
    let after = a.absorbed(part);
    super::mesh_removals::tombstone_is_shipped_or_known(
        b.removed,
        removals,
        since,
        a.removed,
        known,
        clock,
    );
    assert forall|tag: Tag| #[trigger] a.knows(tag) implies after.knows(tag) by {
        absorbed_knows(a, part, tag);
    }
    assert forall|tag: Tag| #[trigger] b.knows(tag) && Tagged::<T>::beyond(since, tag) implies
        after.knows(tag) by {
        absorbed_knows(a, part, tag);
        if b.removed.contains(tag) {
            if a.removed.contains(tag) {
                assert(a.knows(tag));
            }
        } else {
            let element = choose|element: T| #[trigger] b.has(element, tag);
            assert(part.adds.contains((element, tag)));
        }
    }
}

/// Nothing is known after a delta that neither side knew.
proof fn absorbed_part_is_known<T>(
    a: Tagged<T>,
    b: Tagged<T>,
    removals: Set<Removal>,
    since: Map<NodeId, u64>,
)
    ensures
        forall|tag: Tag| #[trigger]
            a.absorbed(part_since(b, removals, since)).knows(tag) ==> a.knows(tag) || b.knows(tag),
{
    let part = part_since(b, removals, since);
    assert forall|tag: Tag| #[trigger] a.absorbed(part).knows(tag) implies a.knows(tag) || b.knows(
        tag,
    ) by {
        absorbed_knows(a, part, tag);
        if exists|element: T| #[trigger] part.adds.contains((element, tag)) {
            let element = choose|element: T| #[trigger] part.adds.contains((element, tag));
            assert(b.has(element, tag));
        }
    }
}

/// What is known after a merge.
proof fn merged_knows<T>(a: Tagged<T>, b: Tagged<T>)
    ensures
        forall|tag: Tag| #[trigger]
            a.absorbed(b.everything()).knows(tag) <==> a.knows(tag) || b.knows(tag),
{
    let all = b.everything();
    assert forall|tag: Tag| #[trigger] a.absorbed(all).knows(tag)
        <==> a.knows(tag) || b.knows(tag) by {
        absorbed_knows(a, all, tag);
        if exists|element: T| #[trigger] all.adds.contains((element, tag)) {
            let element = choose|element: T| #[trigger] all.adds.contains((element, tag));
            assert(b.has(element, tag));
        }
        if b.knows(tag) && !b.removed.contains(tag) {
            let element = choose|element: T| #[trigger] b.has(element, tag);
            assert(all.adds.contains((element, tag)));
        }
    }
}

/// What is known after an add, and after a removal.
proof fn updates_know<T>(a: Tagged<T>, element: T, tag: Tag)
    ensures
        forall|t: Tag| #[trigger]
            a.inserted(element, tag).knows(t) <==> a.knows(t) || t == tag,
        forall|t: Tag| #[trigger] a.without(element).knows(t) <==> a.knows(t),
{
    let more = a.inserted(element, tag);
    let less = a.without(element);
    assert forall|t: Tag| #[trigger] more.knows(t) <==> a.knows(t) || t == tag by {
        assert(more.has(element, tag));
        if a.knows(t) && !a.removed.contains(t) {
            let e = choose|e: T| #[trigger] a.has(e, t);
            assert(more.has(e, t));
        }
        if more.knows(t) && !more.removed.contains(t) && t != tag {
            let e = choose|e: T| #[trigger] more.has(e, t);
            assert(a.has(e, t));
        }
    }
    assert forall|t: Tag| #[trigger] less.knows(t) <==> a.knows(t) by {
        if a.knows(t) && !a.removed.contains(t) {
            let e = choose|e: T| #[trigger] a.has(e, t);
            if e == element {
                assert(less.removed.contains(t));
            } else {
                assert(less.has(e, t));
            }
        }
        if less.knows(t) {
            if less.removed.contains(t) {
                if !a.removed.contains(t) {
                    assert(a.has(element, t));
                }
            } else {
                let e = choose|e: T| #[trigger] less.has(e, t);
                assert(a.has(e, t));
            }
        }
    }
}

/// The tags that an update makes known: those known before, and for an add the new one.
proof fn update_knows(a: Canvas, update: Update, node: NodeId)
    ensures
        ({
            let after = updated(a, update, node);
            let tag = (node, a.next_time());
            &&& forall|t: Tag| #[trigger]
                after.users.knows(t) ==> a.users.knows(t) || t == tag
            &&& forall|t: Tag| #[trigger] a.users.knows(t) ==> after.users.knows(t)
            &&& forall|t: Tag| #[trigger]
                after.palette.knows(t) ==> a.palette.knows(t) || t == tag
            &&& forall|t: Tag| #[trigger] a.palette.knows(t) ==> after.palette.knows(t)
        }),
{
    let after = updated(a, update, node);
    let tag = (node, a.next_time());
    match update {
        Update::AddUser(user) => {
            updates_know(a.users, user, tag);
            assert forall|t: Tag| #[trigger] a.users.knows(t) implies after.users.knows(t) by {
                assert(a.users.inserted(user, tag).knows(t));
            }
        },
        Update::RemoveUser(user) => {
            updates_know(a.users, user, tag);
            assert forall|t: Tag| #[trigger] a.users.knows(t) implies after.users.knows(t) by {
                assert(a.users.without(user).knows(t));
            }
        },
        Update::AddColor(color) => {
            updates_know(a.palette, color, tag);
            assert forall|t: Tag| #[trigger] a.palette.knows(t) implies after.palette.knows(t) by {
                assert(a.palette.inserted(color, tag).knows(t));
            }
        },
        Update::RemoveColor(color) => {
            updates_know(a.palette, color, tag);
            assert forall|t: Tag| #[trigger] a.palette.knows(t) implies after.palette.knows(t) by {
                assert(a.palette.without(color).knows(t));
            }
        },
        _ => {},
    }
}

proof fn merge_keeps_tags_covered(a: Canvas, c: Canvas, b: Canvas)
    requires
        has_covered_tags(a, b),
        has_covered_tags(c, b),
    ensures
        has_covered_tags(a.merged(c), b),
{
    let after = a.merged(c);
    merged_knows(a.users, c.users);
    merged_knows(a.palette, c.palette);
    assert forall|n: NodeId| #[trigger] crate::counts::count(after.clock, n)
        == crate::counts::count(a.clock, n) || crate::counts::count(after.clock, n)
        == crate::counts::count(c.clock, n) by {}
    assert forall|tag: Tag|
        #![trigger after.users.knows(tag)]
        #![trigger b.users.knows(tag)]
        b.users.knows(tag) && tag.1 <= crate::counts::count(after.clock, tag.0) implies
            after.users.knows(tag) by {
        assert(a.users.knows(tag) || c.users.knows(tag));
    }
    assert forall|tag: Tag|
        #![trigger after.palette.knows(tag)]
        #![trigger b.palette.knows(tag)]
        b.palette.knows(tag) && tag.1 <= crate::counts::count(after.clock, tag.0) implies
            after.palette.knows(tag) by {
        assert(a.palette.knows(tag) || c.palette.knows(tag));
    }
}

/// The clock after a delta against a version that it covers.
proof fn changed_clock(a: Canvas, c: Canvas, since: Map<NodeId, u64>)
    requires
        CanvasDocument::covers(a.clock, since),
    ensures
        ({
            let after = a.changed(c.change_since(since)).clock;
            &&& crate::counts::dominates(after, a.clock)
            &&& crate::counts::dominates(after, c.clock)
            &&& forall|n: NodeId| #[trigger]
                crate::counts::count(after, n) == crate::counts::count(a.clock, n)
                    || crate::counts::count(after, n) == crate::counts::count(c.clock, n)
        }),
{
    let after = a.changed(c.change_since(since)).clock;
    assert forall|n: NodeId| #[trigger] crate::counts::count(after, n) >= crate::counts::count(
        c.clock,
        n,
    ) by {
        assert(crate::counts::count(a.clock, n) >= crate::counts::count(since, n));
    }
}

proof fn delta_keeps_set_covered<T>(
    a: Tagged<T>,
    known: Set<Removal>,
    c: Tagged<T>,
    removals: Set<Removal>,
    since: Map<NodeId, u64>,
    b: Tagged<T>,
    mine: Canvas,
    theirs: Canvas,
)
    requires
        knows_covered(a, mine.clock, b),
        knows_covered(c, theirs.clock, b),
        a.removed == removed_tags(known),
        c.removed == removed_tags(removals),
        covered_known(known, mine.clock, removals),
        CanvasDocument::covers(mine.clock, since),
    ensures
        knows_covered(
            a.absorbed(part_since(c, removals, since)),
            mine.changed(theirs.change_since(since)).clock,
            b,
        ),
{
    let after = a.absorbed(part_since(c, removals, since));
    let clock = mine.changed(theirs.change_since(since)).clock;
    absorbed_part_knows(a, known, mine.clock, c, removals, since);
    changed_clock(mine, theirs, since);
    assert forall|tag: Tag|
        #![trigger after.knows(tag)]
        #![trigger b.knows(tag)]
        b.knows(tag) && tag.1 <= crate::counts::count(clock, tag.0) implies after.knows(tag) by {
        if tag.1 > crate::counts::count(mine.clock, tag.0) {
            assert(c.knows(tag));
            assert(crate::counts::count(mine.clock, tag.0) >= crate::counts::count(since, tag.0));
        } else {
            assert(a.knows(tag));
        }
    }
}

proof fn delta_keeps_tags_covered(a: Canvas, c: Canvas, since: Map<NodeId, u64>, b: Canvas)
    requires
        has_covered_tags(a, b),
        has_covered_tags(c, b),
        super::mesh_removals::has_covered_removals(a, c),
        CanvasDocument::valid(a),
        CanvasDocument::valid(c),
        CanvasDocument::covers(a.clock, since),
    ensures
        has_covered_tags(a.changed(c.change_since(since)), b),
{
    delta_keeps_set_covered(
        a.users,
        a.user_removals,
        c.users,
        c.user_removals,
        since,
        b.users,
        a,
        c,
    );
    delta_keeps_set_covered(
        a.palette,
        a.palette_removals,
        c.palette,
        c.palette_removals,
        since,
        b.palette,
        a,
        c,
    );
}

proof fn tags_covered_of_both(a: Canvas, b: Canvas, c: Canvas, since: Map<NodeId, u64>)
    requires
        has_covered_tags(a, b),
        has_covered_tags(a, c),
    ensures
        has_covered_tags(a, b.merged(c)),
        has_covered_tags(a, b.changed(c.change_since(since))),
{
    merged_knows(b.users, c.users);
    merged_knows(b.palette, c.palette);
    absorbed_part_is_known(b.users, c.users, c.user_removals, since);
    absorbed_part_is_known(b.palette, c.palette, c.palette_removals, since);
}

proof fn fresh_tag_is_not_covered(a: Canvas, b: Canvas, update: Update, node: NodeId)
    requires
        has_covered_tags(a, b),
        has_room(b, node),
        crate::counts::count(a.clock, node) <= crate::counts::count(b.clock, node),
    ensures
        has_covered_tags(a, updated(b, update, node)),
{
    super::laws::next_time_is_fresh(b, node);
    update_knows(b, update, node);
    assert(crate::counts::count(b.clock, node) < b.next_time());
}

proof fn update_keeps_tags_covered(a: Canvas, b: Canvas, update: Update, node: NodeId)
    requires
        has_covered_tags(a, b),
        has_room(a, node),
        crate::counts::count(b.clock, node) <= crate::counts::count(a.clock, node),
        tags_within_clock(b),
    ensures
        has_covered_tags(updated(a, update, node), b),
{
    let after = updated(a, update, node);
    update_knows(a, update, node);
    assert forall|tag: Tag|
        #![trigger after.users.knows(tag)]
        #![trigger b.users.knows(tag)]
        b.users.knows(tag) && tag.1 <= crate::counts::count(after.clock, tag.0) implies
            after.users.knows(tag) by {
        assert(tag.1 <= crate::counts::count(b.clock, tag.0));
        assert(a.users.knows(tag));
    }
    assert forall|tag: Tag|
        #![trigger after.palette.knows(tag)]
        #![trigger b.palette.knows(tag)]
        b.palette.knows(tag) && tag.1 <= crate::counts::count(after.clock, tag.0) implies
            after.palette.knows(tag) by {
        assert(tag.1 <= crate::counts::count(b.clock, tag.0));
        assert(a.palette.knows(tag));
    }
}

proof fn update_keeps_tags_within(a: Canvas, update: Update, node: NodeId)
    requires
        tags_within_clock(a),
        has_room(a, node),
    ensures
        tags_within_clock(updated(a, update, node)),
{
    let after = updated(a, update, node);
    super::laws::next_time_is_fresh(a, node);
    update_knows(a, update, node);
    assert forall|tag: Tag| #[trigger] after.users.knows(tag) implies 0 < tag.1
        <= crate::counts::count(after.clock, tag.0) by {
        assert(crate::counts::count(after.clock, tag.0) >= crate::counts::count(a.clock, tag.0));
    }
    assert forall|tag: Tag| #[trigger] after.palette.knows(tag) implies 0 < tag.1
        <= crate::counts::count(after.clock, tag.0) by {
        assert(crate::counts::count(after.clock, tag.0) >= crate::counts::count(a.clock, tag.0));
    }
}

/// A set that knows only what two others know is within a clock that covers both of theirs.
proof fn known_stays_within<T>(
    a: Tagged<T>,
    a_clock: Map<NodeId, u64>,
    c: Tagged<T>,
    c_clock: Map<NodeId, u64>,
    after: Tagged<T>,
    clock: Map<NodeId, u64>,
)
    requires
        tagged_within(a, a_clock),
        tagged_within(c, c_clock),
        forall|tag: Tag| #[trigger] after.knows(tag) ==> a.knows(tag) || c.knows(tag),
        crate::counts::dominates(clock, a_clock),
        crate::counts::dominates(clock, c_clock),
    ensures
        tagged_within(after, clock),
{
    assert forall|tag: Tag| #[trigger] after.knows(tag) implies 0 < tag.1 <= crate::counts::count(
        clock,
        tag.0,
    ) by {
        assert(crate::counts::count(clock, tag.0) >= crate::counts::count(a_clock, tag.0));
        assert(crate::counts::count(clock, tag.0) >= crate::counts::count(c_clock, tag.0));
    }
}

proof fn taking_in_keeps_tags_within(a: Canvas, c: Canvas, since: Map<NodeId, u64>)
    requires
        tags_within_clock(a),
        tags_within_clock(c),
        CanvasDocument::covers(a.clock, since),
    ensures
        tags_within_clock(a.merged(c)),
        tags_within_clock(a.changed(c.change_since(since))),
{
    let merged = a.merged(c);
    let changed = a.changed(c.change_since(since));
    crate::counts::join_dominates(a.clock, c.clock);
    changed_clock(a, c, since);
    merged_knows(a.users, c.users);
    merged_knows(a.palette, c.palette);
    absorbed_part_is_known(a.users, c.users, c.user_removals, since);
    absorbed_part_is_known(a.palette, c.palette, c.palette_removals, since);
    known_stays_within(a.users, a.clock, c.users, c.clock, merged.users, merged.clock);
    known_stays_within(a.palette, a.clock, c.palette, c.clock, merged.palette, merged.clock);
    known_stays_within(a.users, a.clock, c.users, c.clock, changed.users, changed.clock);
    known_stays_within(a.palette, a.clock, c.palette, c.clock, changed.palette, changed.clock);
}

/// Every step keeps the tags consistent.
pub proof fn step_keeps_tags_consistent(mesh: Mesh, step: Step)
    requires
        mesh.is_consistent(),
        mesh.canvases_valid(),
        mesh.removals_consistent(),
        mesh.tags_consistent(),
        mesh.allows(step),
    ensures
        mesh.after(step).tags_consistent(),
{
    let after = mesh.after(step);
    match step {
        Step::Change(node, update) => {
            let me = Holder::Node(node);
            let mine = mesh.canvas(me);
            assert forall|a: Holder, b: Holder|
                #![trigger after.has(a), after.has(b)]
                after.has(a) && after.has(b) implies has_covered_tags(
                after.canvas(b),
                after.canvas(a),
            ) by {
                assert(mesh.has(a) && mesh.has(b) && mesh.has(me));
                if a == me && b != me {
                    fresh_tag_is_not_covered(mesh.canvas(b), mine, update, node);
                } else if b == me && a != me {
                    update_keeps_tags_covered(mine, mesh.canvas(a), update, node);
                }
            }
            assert forall|a: Holder| #[trigger] after.has(a) implies tags_within_clock(
                after.canvas(a),
            ) by {
                assert(mesh.has(a) && mesh.has(me));
                if a == me {
                    update_keeps_tags_within(mine, update, node);
                }
            }
        },
        Step::Send(node, message) => {
            let me = Holder::Node(node);
            let letter = Holder::Message(message);
            assert forall|a: Holder, b: Holder|
                #![trigger after.has(a), after.has(b)]
                after.has(a) && after.has(b) implies has_covered_tags(
                after.canvas(b),
                after.canvas(a),
            ) by {
                let x = if a == letter {
                    me
                } else {
                    a
                };
                let y = if b == letter {
                    me
                } else {
                    b
                };
                assert(mesh.has(x) && mesh.has(y));
            }
            assert forall|a: Holder| #[trigger] after.has(a) implies tags_within_clock(
                after.canvas(a),
            ) by {
                let x = if a == letter {
                    me
                } else {
                    a
                };
                assert(mesh.has(x));
            }
        },
        Step::Merge(node, message) => {
            let me = Holder::Node(node);
            let letter = Holder::Message(message);
            let mine = mesh.canvas(me);
            let theirs = mesh.canvas(letter);
            assert forall|a: Holder, b: Holder|
                #![trigger after.has(a), after.has(b)]
                after.has(a) && after.has(b) implies has_covered_tags(
                after.canvas(b),
                after.canvas(a),
            ) by {
                assert(mesh.has(a) && mesh.has(b) && mesh.has(me) && mesh.has(letter));
                if a == me && b != me {
                    tags_covered_of_both(mesh.canvas(b), mine, theirs, Map::empty());
                } else if b == me && a != me {
                    merge_keeps_tags_covered(mine, theirs, mesh.canvas(a));
                }
            }
            assert forall|a: Holder| #[trigger] after.has(a) implies tags_within_clock(
                after.canvas(a),
            ) by {
                assert(mesh.has(a) && mesh.has(me) && mesh.has(letter));
                taking_in_keeps_tags_within(mine, theirs, Map::empty());
            }
        },
        Step::Apply(node, message, since) => {
            let me = Holder::Node(node);
            let letter = Holder::Message(message);
            let mine = mesh.canvas(me);
            let theirs = mesh.canvas(letter);
            assert forall|a: Holder, b: Holder|
                #![trigger after.has(a), after.has(b)]
                after.has(a) && after.has(b) implies has_covered_tags(
                after.canvas(b),
                after.canvas(a),
            ) by {
                assert(mesh.has(a) && mesh.has(b) && mesh.has(me) && mesh.has(letter));
                if a == me && b != me {
                    tags_covered_of_both(mesh.canvas(b), mine, theirs, since);
                } else if b == me && a != me {
                    delta_keeps_tags_covered(mine, theirs, since, mesh.canvas(a));
                }
            }
            assert forall|a: Holder| #[trigger] after.has(a) implies tags_within_clock(
                after.canvas(a),
            ) by {
                assert(mesh.has(a) && mesh.has(me) && mesh.has(letter));
                taking_in_keeps_tags_within(mine, theirs, since);
            }
        },
    }
}

/// The tags of a mesh stay consistent, whatever happens in it.
pub proof fn mesh_tags_stay_consistent(mesh: Mesh, steps: Seq<Step>)
    requires
        mesh.is_new(),
        mesh.allows_all(steps),
    ensures
        mesh.after_all(steps).tags_consistent(),
    decreases steps.len(),
{
    if steps.len() > 0 {
        let before = mesh.after_all(steps.drop_last());
        mesh_tags_stay_consistent(mesh, steps.drop_last());
        super::mesh::mesh_stays_consistent(mesh, steps.drop_last());
        super::mesh_valid::mesh_stays_valid(mesh, steps.drop_last());
        super::mesh_removals::mesh_removals_stay_consistent(mesh, steps.drop_last());
        step_keeps_tags_consistent(before, steps.last());
    } else {
        assert forall|a: Holder| #[trigger] mesh.has(a) implies tags_within_clock(
            mesh.canvas(a),
        ) by {
            super::laws::blank_is_valid();
        }
    }
}

/// Delta gossip loses no add: whatever has happened in a mesh, a node that applies the delta of a
/// message against any version that its own version includes knows every tag that keeps a user or
/// a color alive at the sender: the tag is active there, or was removed.
pub proof fn delta_gossip_loses_no_add(
    mesh: Mesh,
    steps: Seq<Step>,
    node: NodeId,
    message: nat,
    since: Map<NodeId, u64>,
)
    requires
        mesh.is_new(),
        mesh.allows_all(steps),
        mesh.after_all(steps).allows(Step::Apply(node, message, since)),
    ensures
        ({
            let theirs = mesh.after_all(steps).canvas(Holder::Message(message));
            let after = mesh.after_all(steps).after(Step::Apply(node, message, since)).canvas(
                Holder::Node(node),
            );
            &&& forall|tag: Tag| #[trigger] theirs.users.knows(tag) ==> after.users.knows(tag)
            &&& forall|tag: Tag| #[trigger] theirs.palette.knows(tag) ==> after.palette.knows(tag)
        }),
{
    let now = mesh.after_all(steps);
    mesh_tags_stay_consistent(mesh, steps);
    super::mesh_valid::mesh_stays_valid(mesh, steps);
    super::mesh_removals::mesh_removals_stay_consistent(mesh, steps);
    let mine = now.canvas(Holder::Node(node));
    let theirs = now.canvas(Holder::Message(message));
    let after = mine.changed(theirs.change_since(since));
    assert(now.has(Holder::Node(node)) && now.has(Holder::Message(message)));
    assert(has_covered_tags(mine, theirs));
    assert(super::mesh_removals::has_covered_removals(mine, theirs));
    absorbed_part_knows(
        mine.users,
        mine.user_removals,
        mine.clock,
        theirs.users,
        theirs.user_removals,
        since,
    );
    absorbed_part_knows(
        mine.palette,
        mine.palette_removals,
        mine.clock,
        theirs.palette,
        theirs.palette_removals,
        since,
    );
    assert forall|tag: Tag| #[trigger] theirs.users.knows(tag) implies after.users.knows(tag) by {
        assert(crate::counts::count(mine.clock, tag.0) >= crate::counts::count(since, tag.0));
        if !Tagged::<NodeId>::beyond(since, tag) {
            assert(mine.users.knows(tag));
        }
    }
    assert forall|tag: Tag| #[trigger] theirs.palette.knows(tag) implies after.palette.knows(
        tag,
    ) by {
        assert(crate::counts::count(mine.clock, tag.0) >= crate::counts::count(since, tag.0));
        if !Tagged::<super::document::Rgba>::beyond(since, tag) {
            assert(mine.palette.knows(tag));
        }
    }
}

} // verus!

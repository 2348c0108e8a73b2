//! What holds of the removals of all the nodes of a mesh, however they gossip.
use super::document::{Canvas, CanvasDocument};
use super::laws::{has_room, updated, Update};
use super::mesh::{Holder, Mesh, Step};
use super::removals::{removals_beyond, removals_within, removed_tags, Removal};
use crate::sets::orset::Tag;
use crate::traits::{Crdt, DeltaCrdt};
use crate::NodeId;
use vstd::prelude::*;

verus! {

/// The removals among `removals` that `clock` covers are known.
pub open spec fn covered_known(
    known: Set<Removal>,
    clock: Map<NodeId, u64>,
    removals: Set<Removal>,
) -> bool {
    forall|removal: Removal| #[trigger]
        removals.contains(removal) && removal.1.1 <= crate::counts::count(clock, removal.1.0)
            ==> known.contains(removal)
}

/// `a` has the removals of `b` that the clock of `a` covers.
pub open spec fn has_covered_removals(a: Canvas, b: Canvas) -> bool {
    &&& covered_known(a.user_removals, a.clock, b.user_removals)
    &&& covered_known(a.palette_removals, a.clock, b.palette_removals)
}

impl Mesh {
    /// The invariant: every canvas has the removals of every other canvas that its clock covers.
    pub open spec fn removals_consistent(self) -> bool {
        forall|a: Holder, b: Holder|
            #![trigger self.has(a), self.has(b)]
            self.has(a) && self.has(b) ==> has_covered_removals(self.canvas(b), self.canvas(a))
    }
}

proof fn merge_keeps_removals_covered(a: Canvas, c: Canvas, b: Canvas)
    requires
        has_covered_removals(a, b),
        has_covered_removals(c, b),
    ensures
        has_covered_removals(a.merged(c), b),
{
    let after = a.merged(c);
    assert forall|n: NodeId| #[trigger] crate::counts::count(after.clock, n)
        == crate::counts::count(a.clock, n) || crate::counts::count(after.clock, n)
        == crate::counts::count(c.clock, n) by {}
}

proof fn delta_keeps_removals_covered(a: Canvas, c: Canvas, since: Map<NodeId, u64>, b: Canvas)
    requires
        has_covered_removals(a, b),
        has_covered_removals(c, b),
        CanvasDocument::covers(a.clock, since),
    ensures
        has_covered_removals(a.changed(c.change_since(since)), b),
{
    let after = a.changed(c.change_since(since));
    assert forall|n: NodeId|
        crate::counts::count(a.clock, n) >= crate::counts::count(since, n) && (
        #[trigger] crate::counts::count(after.clock, n) == crate::counts::count(a.clock, n)
            || crate::counts::count(after.clock, n) == crate::counts::count(c.clock, n)) by {}
    assert forall|removal: Removal| #[trigger]
        b.user_removals.contains(removal) && removal.1.1 <= crate::counts::count(
            after.clock,
            removal.1.0,
        ) implies after.user_removals.contains(removal) by {
        if removal.1.1 > crate::counts::count(a.clock, removal.1.0) {
            assert(c.user_removals.contains(removal));
            assert(removals_beyond(c.user_removals, since).contains(removal));
        }
    }
    assert forall|removal: Removal| #[trigger]
        b.palette_removals.contains(removal) && removal.1.1 <= crate::counts::count(
            after.clock,
            removal.1.0,
        ) implies after.palette_removals.contains(removal) by {
        if removal.1.1 > crate::counts::count(a.clock, removal.1.0) {
            assert(c.palette_removals.contains(removal));
            assert(removals_beyond(c.palette_removals, since).contains(removal));
        }
    }
}

proof fn removals_covered_of_both(a: Canvas, b: Canvas, c: Canvas, since: Map<NodeId, u64>)
    requires
        has_covered_removals(a, b),
        has_covered_removals(a, c),
    ensures
        has_covered_removals(a, b.merged(c)),
        has_covered_removals(a, b.changed(c.change_since(since))),
{
}

/// A removal by a node has a time that no other canvas has seen of it.
proof fn fresh_removal_is_not_covered(a: Canvas, b: Canvas, update: Update, node: NodeId)
    requires
        has_covered_removals(a, b),
        has_room(b, node),
        crate::counts::count(a.clock, node) <= crate::counts::count(b.clock, node),
    ensures
        has_covered_removals(a, updated(b, update, node)),
{
    super::laws::next_time_is_fresh(b, node);
    assert(crate::counts::count(b.clock, node) < b.next_time());
}

proof fn update_keeps_removals_covered(a: Canvas, b: Canvas, update: Update, node: NodeId)
    requires
        has_covered_removals(a, b),
        has_room(a, node),
        crate::counts::count(b.clock, node) <= crate::counts::count(a.clock, node),
        removals_within(b.user_removals, b.clock),
        removals_within(b.palette_removals, b.clock),
    ensures
        has_covered_removals(updated(a, update, node), b),
{
    let after = updated(a, update, node);
    assert forall|n: NodeId|
        n != node implies #[trigger] crate::counts::count(after.clock, n) == crate::counts::count(
        a.clock,
        n,
    ) by {}
    assert(a.user_removals.subset_of(after.user_removals));
    assert(a.palette_removals.subset_of(after.palette_removals));
}

/// Every step keeps the removals consistent.
pub proof fn step_keeps_removals_consistent(mesh: Mesh, step: Step)
    requires
        mesh.is_consistent(),
        mesh.canvases_valid(),
        mesh.removals_consistent(),
        mesh.allows(step),
    ensures
        mesh.after(step).removals_consistent(),
{
    let after = mesh.after(step);
    assert forall|a: Holder, b: Holder|
        #![trigger after.has(a), after.has(b)]
        after.has(a) && after.has(b) implies has_covered_removals(
        after.canvas(b),
        after.canvas(a),
    ) by {
        match step {
            Step::Change(node, update) => {
                let me = Holder::Node(node);
                let mine = mesh.canvas(me);
                assert(mesh.has(a) && mesh.has(b) && mesh.has(me));
                if a == me && b != me {
                    fresh_removal_is_not_covered(mesh.canvas(b), mine, update, node);
                } else if b == me && a != me {
                    update_keeps_removals_covered(mine, mesh.canvas(a), update, node);
                }
            },
            Step::Send(node, message) => {
                let me = Holder::Node(node);
                let letter = Holder::Message(message);
                let x = if a == letter {
                    me
                } else {
                    a
                };
                let y = if b == letter {
                    me
                } else {
                    b
                };
                assert(mesh.has(x) && mesh.has(y));
            },
            Step::Merge(node, message) => {
                let me = Holder::Node(node);
                let letter = Holder::Message(message);
                let mine = mesh.canvas(me);
                let theirs = mesh.canvas(letter);
                assert(mesh.has(a) && mesh.has(b) && mesh.has(me) && mesh.has(letter));
                if a == me && b != me {
                    removals_covered_of_both(mesh.canvas(b), mine, theirs, Map::empty());
                } else if b == me && a != me {
                    merge_keeps_removals_covered(mine, theirs, mesh.canvas(a));
                }
            },
            Step::Apply(node, message, since) => {
                let me = Holder::Node(node);
                let letter = Holder::Message(message);
                let mine = mesh.canvas(me);
                let theirs = mesh.canvas(letter);
                assert(mesh.has(a) && mesh.has(b) && mesh.has(me) && mesh.has(letter));
                if a == me && b != me {
                    removals_covered_of_both(mesh.canvas(b), mine, theirs, since);
                } else if b == me && a != me {
                    delta_keeps_removals_covered(mine, theirs, since, mesh.canvas(a));
                }
            },
        }
    }
}

/// The removals of a mesh stay consistent, whatever happens in it.
pub proof fn mesh_removals_stay_consistent(mesh: Mesh, steps: Seq<Step>)
    requires
        mesh.is_new(),
        mesh.allows_all(steps),
    ensures
        mesh.after_all(steps).removals_consistent(),
    decreases steps.len(),
{
    if steps.len() > 0 {
        mesh_removals_stay_consistent(mesh, steps.drop_last());
        super::mesh::mesh_stays_consistent(mesh, steps.drop_last());
        super::mesh_valid::mesh_stays_valid(mesh, steps.drop_last());
        step_keeps_removals_consistent(mesh.after_all(steps.drop_last()), steps.last());
    }
}

/// A tombstone of the sender is in the delta, or the receiver has it.
pub proof fn tombstone_is_shipped_or_known(
    removed: Set<Tag>,
    removals: Set<Removal>,
    since: Map<NodeId, u64>,
    mine: Set<Tag>,
    known: Set<Removal>,
    clock: Map<NodeId, u64>,
)
    requires
        removed == removed_tags(removals),
        mine == removed_tags(known),
        covered_known(known, clock, removals),
        crate::counts::dominates(clock, since),
    ensures
        forall|tag: Tag| #[trigger]
            removed.contains(tag) ==> removed_tags(removals_beyond(removals, since)).contains(tag)
                || mine.contains(tag),
{
    assert forall|tag: Tag| #[trigger] removed.contains(tag) implies removed_tags(
        removals_beyond(removals, since),
    ).contains(tag) || mine.contains(tag) by {
        let stamp = choose|stamp: Tag| #[trigger] removals.contains((tag, stamp));
        if stamp.1 > crate::counts::count(since, stamp.0) {
            assert(removals_beyond(removals, since).contains((tag, stamp)));
        } else {
            assert(crate::counts::count(clock, stamp.0) >= crate::counts::count(since, stamp.0));
            assert(known.contains((tag, stamp)));
        }
    }
}

/// Delta gossip loses no removal: whatever has happened in a mesh, a node that applies the delta
/// of a message against any version that its own version includes has every tombstone of the
/// sender, of users and of colors.
pub proof fn delta_gossip_loses_no_removal(
    mesh: Mesh,
    steps: Seq<Step>,
    node: NodeId,
    message: nat,
    since: Map<NodeId, u64>,
)
    requires
        mesh.is_new(),
        mesh.allows_all(steps),
        mesh.after_all(steps).allows(Step::Apply(node, message, since)),
    ensures
        ({
            let theirs = mesh.after_all(steps).canvas(Holder::Message(message));
            let after = mesh.after_all(steps).after(Step::Apply(node, message, since)).canvas(
                Holder::Node(node),
            );
            &&& theirs.users.removed.subset_of(after.users.removed)
            &&& theirs.palette.removed.subset_of(after.palette.removed)
        }),
{
    let now = mesh.after_all(steps);
    mesh_removals_stay_consistent(mesh, steps);
    super::mesh_valid::mesh_stays_valid(mesh, steps);
    let mine = now.canvas(Holder::Node(node));
    let theirs = now.canvas(Holder::Message(message));
    assert(now.has(Holder::Node(node)) && now.has(Holder::Message(message)));
    assert(has_covered_removals(mine, theirs));
    tombstone_is_shipped_or_known(
        theirs.users.removed,
        theirs.user_removals,
        since,
        mine.users.removed,
        mine.user_removals,
        mine.clock,
    );
    tombstone_is_shipped_or_known(
        theirs.palette.removed,
        theirs.palette_removals,
        since,
        mine.palette.removed,
        mine.palette_removals,
        mine.clock,
    );
}

} // verus!

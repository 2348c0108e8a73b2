//! What holds of the paint counts of all the nodes of a mesh, however they gossip.
use super::document::{counts_bridged, Canvas, CanvasDocument};
use super::laws::{has_room, updated, Update};
use super::mesh::{Holder, Mesh, Step};
use crate::counters::g_counter::total;
use crate::traits::{Crdt, DeltaCrdt};
use crate::NodeId;
use vstd::prelude::*;

verus! {

/// `a` has counted at least the paints of `b` by each node whose last paint in `b` the clock of
/// `a` covers.
pub open spec fn has_covered_counts(a: Canvas, b: Canvas) -> bool {
    counts_bridged(b, a.clock, a)
}

/// No paint is from a time that the clock has not seen.
pub open spec fn paints_within(a: Canvas) -> bool {
    crate::counts::dominates(a.clock, a.paint_times)
}

impl Mesh {
    /// The invariant: every canvas has counted at least the paints of every other canvas by each
    /// node whose last paint there its clock covers.
    pub open spec fn counts_consistent(self) -> bool {
        forall|a: Holder, b: Holder|
            #![trigger self.has(a), self.has(b)]
            self.has(a) && self.has(b) ==> has_covered_counts(self.canvas(b), self.canvas(a))
    }
}

/// What a canvas has counted and seen of a node after a delta.
proof fn changed_counts(a: Canvas, c: Canvas, since: Map<NodeId, u64>, node: NodeId)
    requires
        CanvasDocument::covers(a.clock, since),
    ensures
        ({
            let after = a.changed(c.change_since(since));
            let shipped = crate::counts::count(c.paint_times, node) > crate::counts::count(
                since,
                node,
            );
            let mine = crate::counts::count(a.paint_counts, node);
            let theirs = crate::counts::count(c.paint_counts, node);
            let my_time = crate::counts::count(a.paint_times, node);
            let their_time = crate::counts::count(c.paint_times, node);
            &&& crate::counts::count(after.paint_counts, node) == if shipped && theirs > mine {
                theirs
            } else {
                mine
            }
            &&& crate::counts::count(after.paint_times, node) == if shipped && their_time
                > my_time {
                their_time
            } else {
                my_time
            }
            &&& crate::counts::count(a.clock, node) >= crate::counts::count(since, node)
            &&& crate::counts::count(after.clock, node) == crate::counts::count(a.clock, node)
                || crate::counts::count(after.clock, node) == crate::counts::count(c.clock, node)
        }),
{
    assert(crate::counts::count(a.clock, node) >= crate::counts::count(since, node));
}

/// What a canvas has counted and seen of a node after a merge.
proof fn merged_counts(a: Canvas, c: Canvas, node: NodeId)
    ensures
        ({
            let after = a.merged(c);
            let mine = crate::counts::count(a.paint_counts, node);
            let theirs = crate::counts::count(c.paint_counts, node);
            let my_time = crate::counts::count(a.paint_times, node);
            let their_time = crate::counts::count(c.paint_times, node);
            &&& crate::counts::count(after.paint_counts, node) == if theirs > mine {
                theirs
            } else {
                mine
            }
            &&& crate::counts::count(after.paint_times, node) == if their_time > my_time {
                their_time
            } else {
                my_time
            }
            &&& crate::counts::count(after.clock, node) == crate::counts::count(a.clock, node)
                || crate::counts::count(after.clock, node) == crate::counts::count(c.clock, node)
        }),
{
}

proof fn merge_keeps_counts_covered(a: Canvas, c: Canvas, b: Canvas)
    requires
        has_covered_counts(a, b),
        has_covered_counts(c, b),
    ensures
        has_covered_counts(a.merged(c), b),
{
    let after = a.merged(c);
    assert forall|node: NodeId|
        #![trigger crate::counts::count(b.paint_counts, node)]
        #![trigger crate::counts::count(b.paint_times, node)]
        crate::counts::count(b.paint_times, node) <= crate::counts::count(
            after.clock,
            node,
        ) implies crate::counts::count(b.paint_counts, node) <= crate::counts::count(
        after.paint_counts,
        node,
    ) && crate::counts::count(b.paint_times, node) <= crate::counts::count(
        after.paint_times,
        node,
    ) by {
        merged_counts(a, c, node);
    }
}

proof fn delta_keeps_counts_covered(a: Canvas, c: Canvas, since: Map<NodeId, u64>, b: Canvas)
    requires
        has_covered_counts(a, b),
        has_covered_counts(c, b),
        CanvasDocument::covers(a.clock, since),
    ensures
        has_covered_counts(a.changed(c.change_since(since)), b),
{
    let after = a.changed(c.change_since(since));
    assert forall|node: NodeId|
        #![trigger crate::counts::count(b.paint_counts, node)]
        #![trigger crate::counts::count(b.paint_times, node)]
        crate::counts::count(b.paint_times, node) <= crate::counts::count(
            after.clock,
            node,
        ) implies crate::counts::count(b.paint_counts, node) <= crate::counts::count(
        after.paint_counts,
        node,
    ) && crate::counts::count(b.paint_times, node) <= crate::counts::count(
        after.paint_times,
        node,
    ) by {
        changed_counts(a, c, since, node);
    }
}

proof fn counts_covered_of_both(a: Canvas, b: Canvas, c: Canvas, since: Map<NodeId, u64>)
    requires
        has_covered_counts(a, b),
        has_covered_counts(a, c),
        CanvasDocument::covers(b.clock, since),
    ensures
        has_covered_counts(a, b.merged(c)),
        has_covered_counts(a, b.changed(c.change_since(since))),
{
    let merged = b.merged(c);
    assert forall|node: NodeId|
        #![trigger crate::counts::count(merged.paint_counts, node)]
        #![trigger crate::counts::count(merged.paint_times, node)]
        crate::counts::count(merged.paint_times, node) <= crate::counts::count(
            a.clock,
            node,
        ) implies crate::counts::count(merged.paint_counts, node) <= crate::counts::count(
        a.paint_counts,
        node,
    ) && crate::counts::count(merged.paint_times, node) <= crate::counts::count(
        a.paint_times,
        node,
    ) by {
        merged_counts(b, c, node);
    }
    let changed = b.changed(c.change_since(since));
    assert forall|node: NodeId|
        #![trigger crate::counts::count(changed.paint_counts, node)]
        #![trigger crate::counts::count(changed.paint_times, node)]
        crate::counts::count(changed.paint_times, node) <= crate::counts::count(
            a.clock,
            node,
        ) implies crate::counts::count(changed.paint_counts, node) <= crate::counts::count(
        a.paint_counts,
        node,
    ) && crate::counts::count(changed.paint_times, node) <= crate::counts::count(
        a.paint_times,
        node,
    ) by {
        changed_counts(b, c, since, node);
        if crate::counts::count(c.paint_times, node) <= crate::counts::count(since, node) {
            assert(crate::counts::count(b.paint_times, node) == crate::counts::count(
                changed.paint_times,
                node,
            ));
        }
    }
}

/// A paint by a node has a time that no other canvas has seen of it.
proof fn fresh_paint_is_not_covered(a: Canvas, b: Canvas, update: Update, node: NodeId)
    requires
        has_covered_counts(a, b),
        has_room(b, node),
        crate::counts::count(a.clock, node) <= crate::counts::count(b.clock, node),
    ensures
        has_covered_counts(a, updated(b, update, node)),
{
    super::laws::next_time_is_fresh(b, node);
    let after = updated(b, update, node);
    assert(crate::counts::count(b.clock, node) < b.next_time());
    assert forall|n: NodeId|
        #![trigger crate::counts::count(after.paint_counts, n)]
        #![trigger crate::counts::count(after.paint_times, n)]
        crate::counts::count(after.paint_times, n) <= crate::counts::count(a.clock, n) implies
        crate::counts::count(after.paint_counts, n) <= crate::counts::count(a.paint_counts, n)
        && crate::counts::count(after.paint_times, n) <= crate::counts::count(
        a.paint_times,
        n,
    ) by {
        assert(crate::counts::count(b.paint_counts, n) == crate::counts::count(
            after.paint_counts,
            n,
        ));
    }
}

proof fn update_keeps_counts_covered(a: Canvas, b: Canvas, update: Update, node: NodeId)
    requires
        has_covered_counts(a, b),
        has_room(a, node),
        crate::counts::count(b.clock, node) <= crate::counts::count(a.clock, node),
        paints_within(a),
        paints_within(b),
    ensures
        has_covered_counts(updated(a, update, node), b),
{
    let after = updated(a, update, node);
    super::laws::next_time_is_fresh(a, node);
    assert forall|n: NodeId|
        #![trigger crate::counts::count(b.paint_counts, n)]
        #![trigger crate::counts::count(b.paint_times, n)]
        crate::counts::count(b.paint_times, n) <= crate::counts::count(after.clock, n) implies
        crate::counts::count(b.paint_counts, n) <= crate::counts::count(after.paint_counts, n)
        && crate::counts::count(b.paint_times, n) <= crate::counts::count(
        after.paint_times,
        n,
    ) by {
        assert(crate::counts::count(b.clock, n) >= crate::counts::count(b.paint_times, n));
        assert(crate::counts::count(a.clock, n) >= crate::counts::count(a.paint_times, n));
        assert(crate::counts::count(a.clock, n) < a.next_time());
    }
}

/// Every step keeps the paint counts consistent.
pub proof fn step_keeps_counts_consistent(mesh: Mesh, step: Step)
    requires
        mesh.is_consistent(),
        mesh.canvases_valid(),
        mesh.counts_consistent(),
        mesh.allows(step),
    ensures
        mesh.after(step).counts_consistent(),
{
    let after = mesh.after(step);
    assert forall|a: Holder, b: Holder|
        #![trigger after.has(a), after.has(b)]
        after.has(a) && after.has(b) implies has_covered_counts(
        after.canvas(b),
        after.canvas(a),
    ) by {
        match step {
            Step::Change(node, update) => {
                let me = Holder::Node(node);
                let mine = mesh.canvas(me);
                assert(mesh.has(a) && mesh.has(b) && mesh.has(me));
                if a == me && b != me {
                    fresh_paint_is_not_covered(mesh.canvas(b), mine, update, node);
                } else if b == me && a != me {
                    update_keeps_counts_covered(mine, mesh.canvas(a), update, node);
                }
            },
            Step::Send(node, message) => {
                let me = Holder::Node(node);
                let letter = Holder::Message(message);
                let x = if a == letter {
                    me
                } else {
                    a
                };
                let y = if b == letter {
                    me
                } else {
                    b
                };
                assert(mesh.has(x) && mesh.has(y));
            },
            Step::Merge(node, message) => {
                let me = Holder::Node(node);
                let letter = Holder::Message(message);
                let mine = mesh.canvas(me);
                let theirs = mesh.canvas(letter);
                assert(mesh.has(a) && mesh.has(b) && mesh.has(me) && mesh.has(letter));
                if a == me && b != me {
                    counts_covered_of_both(mesh.canvas(b), mine, theirs, Map::empty());
                } else if b == me && a != me {
                    merge_keeps_counts_covered(mine, theirs, mesh.canvas(a));
                }
            },
            Step::Apply(node, message, since) => {
                let me = Holder::Node(node);
                let letter = Holder::Message(message);
                let mine = mesh.canvas(me);
                let theirs = mesh.canvas(letter);
                assert(mesh.has(a) && mesh.has(b) && mesh.has(me) && mesh.has(letter));
                if a == me && b != me {
                    counts_covered_of_both(mesh.canvas(b), mine, theirs, since);
                } else if b == me && a != me {
                    delta_keeps_counts_covered(mine, theirs, since, mesh.canvas(a));
                }
            },
        }
    }
}

/// The paint counts of a mesh stay consistent, whatever happens in it.
pub proof fn mesh_counts_stay_consistent(mesh: Mesh, steps: Seq<Step>)
    requires
        mesh.is_new(),
        mesh.allows_all(steps),
    ensures
        mesh.after_all(steps).counts_consistent(),
    decreases steps.len(),
{
    if steps.len() > 0 {
        mesh_counts_stay_consistent(mesh, steps.drop_last());
        super::mesh::mesh_stays_consistent(mesh, steps.drop_last());
        super::mesh_valid::mesh_stays_valid(mesh, steps.drop_last());
        step_keeps_counts_consistent(mesh.after_all(steps.drop_last()), steps.last());
    }
}

/// Delta gossip loses no paint: whatever has happened in a mesh, a node that applies the delta of
/// a message against any version that its own version includes has counted at least the sender's
/// paints of every node, and so at least its total.
pub proof fn delta_gossip_loses_no_paint(
    mesh: Mesh,
    steps: Seq<Step>,
    node: NodeId,
    message: nat,
    since: Map<NodeId, u64>,
)
    requires
        mesh.is_new(),
        mesh.allows_all(steps),
        mesh.after_all(steps).allows(Step::Apply(node, message, since)),
    ensures
        ({
            let theirs = mesh.after_all(steps).canvas(Holder::Message(message)).paint_counts;
            let after = mesh.after_all(steps).after(Step::Apply(node, message, since)).canvas(
                Holder::Node(node),
            ).paint_counts;
            &&& crate::counts::dominates(after, theirs)
            &&& theirs.dom().finite() && after.dom().finite() ==> total(after) >= total(theirs)
        }),
{
    let now = mesh.after_all(steps);
    mesh_counts_stay_consistent(mesh, steps);
    let mine = now.canvas(Holder::Node(node));
    let theirs = now.canvas(Holder::Message(message));
    let after = mine.changed(theirs.change_since(since));
    assert(now.has(Holder::Node(node)) && now.has(Holder::Message(message)));
    assert(has_covered_counts(mine, theirs));
    assert forall|n: NodeId| #[trigger] crate::counts::count(after.paint_counts, n)
        >= crate::counts::count(theirs.paint_counts, n) by {
        changed_counts(mine, theirs, since, n);
    }
    if theirs.paint_counts.dom().finite() && after.paint_counts.dom().finite() {
        crate::counters::g_counter::value_is_monotonic(theirs.paint_counts, after.paint_counts);
    }
}

} // verus!

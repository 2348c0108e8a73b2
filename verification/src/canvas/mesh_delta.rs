//! What a delta brings to a node of a mesh.
use super::document::{Canvas, CanvasDocument, PixelCoord, Rgba};
use super::mesh::{Holder, Mesh, Step};
use super::mesh_removals::covered_known;
use super::mesh_tags::knows_covered;
use super::mesh_valid::tags_match;
use super::removals::{removed_tags, set_bridged, Removal};
use crate::registers::LWWRegister;
use crate::sets::orset::{ORSet, Tag, Tagged, TaggedDelta};
use crate::traits::{Crdt, DeltaCrdt};
use crate::NodeId;
use vstd::prelude::*;

verus! {

/// The canvas without its cursors.
pub open spec fn without_cursors(canvas: Canvas) -> Canvas {
    Canvas { cursors: Map::empty(), ..canvas }
}

/// A set that knows the tags and the removals of another that its clock covers has what an earlier
/// version covers of it.
proof fn covered_set_is_bridged<T>(
    sender: Tagged<T>,
    removals: Set<Removal>,
    since: Map<NodeId, u64>,
    receiver: Tagged<T>,
    known: Set<Removal>,
    clock: Map<NodeId, u64>,
)
    requires
        knows_covered(receiver, clock, sender),
        covered_known(known, clock, removals),
        tags_match(sender, receiver),
        sender.removed == removed_tags(removals),
        receiver.removed == removed_tags(known),
        crate::counts::dominates(clock, since),
    ensures
        set_bridged(sender, removals, since, receiver, known),
{
    super::mesh_removals::tombstone_is_shipped_or_known(
        sender.removed,
        removals,
        since,
        receiver.removed,
        known,
        clock,
    );
    assert forall|element: T, tag: Tag| #[trigger]
        sender.has(element, tag) && tag.1 <= crate::counts::count(since, tag.0) implies
        receiver.has(element, tag) || receiver.removed.contains(tag) by {
        assert(crate::counts::count(clock, tag.0) >= crate::counts::count(since, tag.0));
        assert(sender.knows(tag));
        assert(receiver.knows(tag));
        if !receiver.removed.contains(tag) {
            let other = choose|other: T| #[trigger] receiver.has(other, tag);
            assert(other == element);
        }
    }
    assert forall|removal: Removal| #[trigger]
        removals.contains(removal) && removal.1.1 <= crate::counts::count(
            since,
            removal.1.0,
        ) implies known.contains(removal) by {
        assert(crate::counts::count(clock, removal.1.0) >= crate::counts::count(
            since,
            removal.1.0,
        ));
    }
}

/// Delta gossip is full-state gossip, but for the cursors: whatever has happened in a mesh, a node
/// that applies the delta of a message against any version that its own version includes has what
/// it would have after merging the canvas of the message. A cursor that was dropped leaves no
/// tombstone, so of the cursors this does not hold.
pub proof fn delta_gossip_is_merge(
    mesh: Mesh,
    steps: Seq<Step>,
    node: NodeId,
    message: nat,
    since: Map<NodeId, u64>,
)
    requires
        mesh.is_new(),
        mesh.allows_all(steps),
        mesh.after_all(steps).allows(Step::Apply(node, message, since)),
    ensures
        CanvasDocument::same(
            without_cursors(
                mesh.after_all(steps).after(Step::Apply(node, message, since)).canvas(
                    Holder::Node(node),
                ),
            ),
            without_cursors(
                mesh.after_all(steps).after(Step::Merge(node, message)).canvas(Holder::Node(node)),
            ),
        ),
{
    let now = mesh.after_all(steps);
    super::mesh::mesh_stays_consistent(mesh, steps);
    super::mesh_valid::mesh_stays_valid(mesh, steps);
    super::mesh_removals::mesh_removals_stay_consistent(mesh, steps);
    super::mesh_tags::mesh_tags_stay_consistent(mesh, steps);
    super::mesh_counts::mesh_counts_stay_consistent(mesh, steps);
    let me = Holder::Node(node);
    let letter = Holder::Message(message);
    assert(now.has(me) && now.has(letter));
    let mine = now.canvas(me);
    let theirs = now.canvas(letter);
    assert(super::mesh::has_covered_pixels(mine, theirs));
    assert(super::mesh_removals::has_covered_removals(mine, theirs));
    assert(super::mesh_tags::has_covered_tags(mine, theirs));
    assert(super::mesh_counts::has_covered_counts(mine, theirs));
    assert(super::mesh_valid::match_up(theirs, mine));
    covered_set_is_bridged(
        theirs.users,
        theirs.user_removals,
        since,
        mine.users,
        mine.user_removals,
        mine.clock,
    );
    covered_set_is_bridged(
        theirs.palette,
        theirs.palette_removals,
        since,
        mine.palette,
        mine.palette_removals,
        mine.clock,
    );
    assert forall|coord: PixelCoord| #[trigger]
        theirs.pixels.contains_key(coord) && theirs.pixels[coord].timestamp
            <= crate::counts::count(since, theirs.pixels[coord].node_id) implies
        mine.pixels.contains_key(coord) && LWWRegister::below(
        theirs.pixels[coord],
        mine.pixels[coord],
    ) by {
        let writer = theirs.pixels[coord].node_id;
        assert(crate::counts::count(mine.clock, writer) >= crate::counts::count(since, writer));
    }
    assert(super::document::counts_bridged(theirs, since, mine)) by {
        assert forall|n: NodeId|
            #![trigger crate::counts::count(theirs.paint_counts, n)]
            #![trigger crate::counts::count(theirs.paint_times, n)]
            crate::counts::count(theirs.paint_times, n) <= crate::counts::count(
                since,
                n,
            ) implies crate::counts::count(theirs.paint_counts, n) <= crate::counts::count(
            mine.paint_counts,
            n,
        ) && crate::counts::count(theirs.paint_times, n) <= crate::counts::count(
            mine.paint_times,
            n,
        ) by {
            assert(crate::counts::count(mine.clock, n) >= crate::counts::count(since, n));
        }
    }
    CanvasDocument::delta_is_merge(without_cursors(theirs), since, without_cursors(mine));
}

/// A set that another includes, and that has nothing beyond it, is that set.
proof fn nothing_new_is_same<T: Ord + Clone>(
    earlier: Tagged<T>,
    later: Tagged<T>,
    part: TaggedDelta<T>,
)
    requires
        earlier.is_settled(),
        later.is_settled(),
        tags_match(later, earlier),
        forall|tag: Tag| #[trigger] earlier.knows(tag) ==> later.knows(tag),
        earlier.removed.subset_of(later.removed),
        ORSet::<T>::vacuous(part),
        earlier.absorbed(part) == ORSet::<T>::join(earlier, later),
    ensures
        later == earlier,
{
    let joined = ORSet::<T>::join(earlier, later);
    crate::sets::orset::absorbed_has(earlier, part);
    crate::sets::orset::absorbed_has(earlier, later.everything());
    assert(later.removed =~= earlier.removed) by {
        assert(joined.removed =~= earlier.removed);
        assert forall|tag: Tag| later.removed.contains(tag) implies earlier.removed.contains(
            tag,
        ) by {
            assert(joined.removed.contains(tag));
        }
    }
    assert forall|element: T, tag: Tag| #[trigger] later.has(element, tag)
        == earlier.has(element, tag) by {
        if later.has(element, tag) {
            assert(joined.has(element, tag));
        }
        if earlier.has(element, tag) {
            assert(earlier.knows(tag));
            assert(later.knows(tag));
            assert(!later.removed.contains(tag));
            let other = choose|other: T| #[trigger] later.has(other, tag);
            assert(other == element);
        }
    }
    crate::sets::orset::settled_same(later, earlier);
}

/// A palette of which a delta says nothing has not changed: whatever has happened in a mesh, where
/// a canvas includes an earlier one and has no change of the palette since the version of that,
/// the palettes are the same.
pub proof fn silent_palette_is_unchanged(
    mesh: Mesh,
    steps: Seq<Step>,
    earlier: Holder,
    later: Holder,
)
    requires
        mesh.is_new(),
        mesh.allows_all(steps),
        mesh.after_all(steps).has(earlier),
        mesh.after_all(steps).has(later),
        CanvasDocument::covers(
            mesh.after_all(steps).canvas(later).clock,
            mesh.after_all(steps).canvas(earlier).clock,
        ),
        ORSet::<Rgba>::vacuous(
            mesh.after_all(steps).canvas(later).change_since(
                mesh.after_all(steps).canvas(earlier).clock,
            ).palette,
        ),
    ensures
        mesh.after_all(steps).canvas(later).palette == mesh.after_all(steps).canvas(
            earlier,
        ).palette,
{
    let now = mesh.after_all(steps);
    super::mesh_valid::mesh_stays_valid(mesh, steps);
    super::mesh_removals::mesh_removals_stay_consistent(mesh, steps);
    super::mesh_tags::mesh_tags_stay_consistent(mesh, steps);
    let before = now.canvas(earlier);
    let after = now.canvas(later);
    let part = after.change_since(before.clock).palette;
    assert(super::mesh_removals::has_covered_removals(before, after));
    assert(super::mesh_removals::has_covered_removals(after, before));
    assert(super::mesh_tags::has_covered_tags(before, after));
    assert(super::mesh_tags::has_covered_tags(after, before));
    assert(super::mesh_valid::match_up(after, before));
    covered_set_is_bridged(
        after.palette,
        after.palette_removals,
        before.clock,
        before.palette,
        before.palette_removals,
        before.clock,
    );
    super::removals::part_since_is_enough::<Rgba>(
        after.palette,
        after.palette_removals,
        before.clock,
        before.palette,
        before.palette_removals,
    );
    assert forall|tag: Tag| #[trigger] before.palette.knows(tag) implies after.palette.knows(
        tag,
    ) by {
        assert(super::mesh_tags::tags_within_clock(before));
        assert(crate::counts::count(after.clock, tag.0) >= crate::counts::count(
            before.clock,
            tag.0,
        ));
    }
    assert forall|tag: Tag| before.palette.removed.contains(tag) implies
        after.palette.removed.contains(tag) by {
        let stamp = choose|stamp: Tag| #[trigger] before.palette_removals.contains((tag, stamp));
        assert(crate::counts::count(after.clock, stamp.0) >= crate::counts::count(
            before.clock,
            stamp.0,
        ));
        assert(after.palette_removals.contains((tag, stamp)));
    }
    nothing_new_is_same(before.palette, after.palette, part);
}

} // verus!

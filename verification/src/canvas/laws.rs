//! What holds of the canvas across its operations.
use super::document::{blank, Canvas, CanvasDocument, PixelCoord, Rgba};
use super::removals::{
    active_within, part_since, removals_beyond, removals_of, removals_within, removed_tags,
    removed_tags_join, removed_tags_of_element, Removal,
};
use crate::counters::g_counter::total;
use crate::registers::LWWRegister;
use crate::sets::orset::{ORSet, Tag, Tagged};
use crate::traits::{Crdt, DeltaCrdt};
use crate::NodeId;
use vstd::prelude::*;

verus! {

/// No tag is active for two elements.
pub open spec fn tags_unshared<T>(set: Tagged<T>) -> bool {
    forall|a: T, b: T, tag: Tag|
        #![trigger set.has(a, tag), set.has(b, tag)]
        set.has(a, tag) && set.has(b, tag) ==> a == b
}

/// What can happen to a canvas on the node that holds it.
pub enum Update {
    Paint(PixelCoord, Rgba),
    AddUser(NodeId),
    RemoveUser(NodeId),
    DropCursor(NodeId),
    AddColor(Rgba),
    RemoveColor(Rgba),
    MoveCursor(NodeId, PixelCoord),
}

/// The canvas after an update by `node`.
pub open spec fn updated(canvas: Canvas, update: Update, node: NodeId) -> Canvas {
    match update {
        Update::Paint(coord, color) => canvas.painted(coord, color, node),
        Update::AddUser(user) => canvas.joined(user, node),
        Update::RemoveUser(user) => canvas.left(user, node),
        Update::DropCursor(user) => canvas.cursor_dropped(user, node),
        Update::AddColor(color) => canvas.color_added(color, node),
        Update::RemoveColor(color) => canvas.color_removed(color, node),
        Update::MoveCursor(user, to) => canvas.cursor_moved(user, to, node),
    }
}

/// The clock has room for one more tick, and so has the paint count of `node`.
pub open spec fn has_room(canvas: Canvas, node: NodeId) -> bool {
    &&& crate::clocks::can_tick(canvas.clock)
    &&& crate::counts::count(canvas.paint_counts, node) < u64::MAX
    &&& canvas.clock.dom().finite()
}

/// A clock over finitely many nodes has a greatest component.
proof fn has_latest_time(clock: Map<NodeId, u64>)
    requires
        clock.dom().finite(),
    ensures
        crate::clocks::is_lamport(clock, crate::clocks::latest_time(clock)),
    decreases clock.dom().len(),
{
    if clock.dom().is_empty() {
        assert forall|n: NodeId| #[trigger] crate::counts::count(clock, n) <= 0 by {
            assert(!clock.dom().contains(n));
        }
        assert(crate::clocks::is_lamport(clock, 0));
    } else {
        let node = clock.dom().choose();
        assert(clock.dom().contains(node));
        let rest = clock.remove(node);
        has_latest_time(rest);
        let before = crate::clocks::latest_time(rest);
        let time = if clock[node] > before {
            clock[node]
        } else {
            before
        };
        assert forall|n: NodeId| #[trigger] crate::counts::count(clock, n) <= time by {
            if n != node {
                assert(crate::counts::count(rest, n) <= before);
                assert(crate::counts::count(rest, n) == crate::counts::count(clock, n));
            }
        }
        if time > 0 {
            if clock[node] > before {
                assert(crate::counts::count(clock, node) == time);
            } else {
                let n = choose|n: NodeId| #[trigger] crate::counts::count(rest, n) == before;
                assert(crate::counts::count(clock, n) == time);
            }
        }
        assert(crate::clocks::is_lamport(clock, time));
    }
}

/// The next time is later than everything that the clock has seen.
pub proof fn next_time_is_fresh(canvas: Canvas, node: NodeId)
    requires
        has_room(canvas, node),
    ensures
        canvas.next_time() > 0,
        forall|n: NodeId| #[trigger] crate::counts::count(canvas.clock, n) < canvas.next_time(),
        crate::counts::dominates(canvas.ticked(node), canvas.clock),
        crate::counts::count(canvas.ticked(node), node) == canvas.next_time(),
{
    let latest = crate::clocks::latest_time(canvas.clock);
    has_latest_time(canvas.clock);
    if latest > 0 {
        let n = choose|n: NodeId| #[trigger] crate::counts::count(canvas.clock, n) == latest;
        assert(crate::counts::count(canvas.clock, n) < u64::MAX);
    }
    crate::clocks::increment_is_fresh(canvas.clock, node, canvas.next_time());
}

/// An empty canvas is valid.
pub proof fn blank_is_valid()
    ensures
        CanvasDocument::valid(blank()),
{
    let canvas = blank();
    assert(removed_tags(Set::empty()) =~= Set::empty());
    assert(CanvasDocument::valid(canvas));
}

/// Every update keeps the canvas valid. A removal does where no other element has one of the tags
/// that it removes.
pub proof fn update_keeps_valid(canvas: Canvas, update: Update, node: NodeId)
    requires
        CanvasDocument::valid(canvas),
        has_room(canvas, node),
        tags_unshared(canvas.users),
        tags_unshared(canvas.palette),
    ensures
        CanvasDocument::valid(updated(canvas, update, node)),
        tags_unshared(updated(canvas, update, node).users),
        tags_unshared(updated(canvas, update, node).palette),
{
    let after = updated(canvas, update, node);
    let clock = canvas.ticked(node);
    let tag = (node, canvas.next_time());
    next_time_is_fresh(canvas, node);
    fresh_tag_is_unknown(canvas.users, canvas.user_removals, canvas, node);
    fresh_tag_is_unknown(canvas.palette, canvas.palette_removals, canvas, node);
    assert(after.clock == clock);
    assert forall|n: NodeId| #[trigger] crate::counts::count(clock, n) >= crate::counts::count(
        after.paint_times,
        n,
    ) by {
        assert(crate::counts::count(clock, n) >= crate::counts::count(canvas.clock, n));
        assert(crate::counts::count(canvas.clock, n) >= crate::counts::count(
            canvas.paint_times,
            n,
        ));
    }
    assert forall|n: NodeId| #[trigger] crate::counts::count(after.paint_times, n)
        >= crate::counts::count(after.paint_counts, n) by {
        assert(crate::counts::count(canvas.paint_times, n) >= crate::counts::count(
            canvas.paint_counts,
            n,
        ));
        assert(crate::counts::count(canvas.clock, n) >= crate::counts::count(
            canvas.paint_times,
            n,
        ));
        assert(crate::counts::count(canvas.clock, n) < canvas.next_time());
    }
    assert forall|coord: PixelCoord| #[trigger] after.pixels.contains_key(coord) implies
        0 < after.pixels[coord].timestamp
        <= crate::counts::count(clock, after.pixels[coord].node_id) by {
        let writer = after.pixels[coord].node_id;
        assert(crate::counts::count(clock, writer) >= crate::counts::count(canvas.clock, writer));
        if canvas.pixels.contains_key(coord) {
            assert(canvas.pixels[coord].timestamp <= crate::counts::count(
                canvas.clock,
                canvas.pixels[coord].node_id,
            ));
        }
    }
    assert forall|user: NodeId| #[trigger] after.cursors.contains_key(user) implies
        0 < after.cursors[user].timestamp
        <= crate::counts::count(clock, after.cursors[user].node_id) by {
        let writer = after.cursors[user].node_id;
        assert(crate::counts::count(clock, writer) >= crate::counts::count(canvas.clock, writer));
        if canvas.cursors.contains_key(user) {
            assert(canvas.cursors[user].timestamp <= crate::counts::count(
                canvas.clock,
                canvas.cursors[user].node_id,
            ));
        }
    }
    stays_within(canvas.users, canvas.user_removals, canvas.clock, clock);
    stays_within(canvas.palette, canvas.palette_removals, canvas.clock, clock);
    match update {
        Update::AddUser(user) => {
            insert_keeps_tags(canvas.users, user, tag, clock);
        },
        Update::RemoveUser(user) => {
            remove_keeps_tags(canvas.users, canvas.user_removals, user, canvas, node);
        },
        Update::AddColor(color) => {
            insert_keeps_tags(canvas.palette, color, tag, clock);
        },
        Update::RemoveColor(color) => {
            remove_keeps_tags(canvas.palette, canvas.palette_removals, color, canvas, node);
        },
        _ => {},
    }
}

/// The tag of the next add is new to a set that the clock has seen.
proof fn fresh_tag_is_unknown<T>(
    set: Tagged<T>,
    removals: Set<Removal>,
    canvas: Canvas,
    node: NodeId,
)
    requires
        has_room(canvas, node),
        active_within(set, canvas.clock),
        removals_within(removals, canvas.clock),
        set.removed == removed_tags(removals),
    ensures
        !set.knows((node, canvas.next_time())),
{
    let tag = (node, canvas.next_time());
    next_time_is_fresh(canvas, node);
    assert(crate::counts::count(canvas.clock, node) < canvas.next_time());
    if set.removed.contains(tag) {
        let stamp = choose|stamp: Tag| #[trigger] removals.contains((tag, stamp));
        assert(crate::counts::count(canvas.clock, stamp.0) < canvas.next_time());
    }
}

proof fn stays_within<T>(
    set: Tagged<T>,
    removals: Set<Removal>,
    before: Map<NodeId, u64>,
    clock: Map<NodeId, u64>,
)
    requires
        active_within(set, before),
        removals_within(removals, before),
        crate::counts::dominates(clock, before),
    ensures
        active_within(set, clock),
        removals_within(removals, clock),
{
    assert forall|element: T, tag: Tag| #[trigger] set.has(element, tag) implies 0 < tag.1
        <= crate::counts::count(clock, tag.0) by {
        assert(crate::counts::count(clock, tag.0) >= crate::counts::count(before, tag.0));
    }
    assert forall|removal: Removal| #[trigger] removals.contains(removal) implies 0 < removal.0.1
        < removal.1.1 <= crate::counts::count(clock, removal.1.0) by {
        assert(crate::counts::count(clock, removal.1.0) >= crate::counts::count(
            before,
            removal.1.0,
        ));
    }
}

proof fn insert_keeps_tags<T: Ord + Clone>(
    set: Tagged<T>,
    element: T,
    tag: Tag,
    clock: Map<NodeId, u64>,
)
    requires
        set.is_settled(),
        tags_unshared(set),
        active_within(set, clock),
        0 < tag.1 <= crate::counts::count(clock, tag.0),
        !set.knows(tag),
    ensures
        set.inserted(element, tag).is_settled(),
        tags_unshared(set.inserted(element, tag)),
        active_within(set.inserted(element, tag), clock),
{
    let after = set.inserted(element, tag);
    crate::sets::orset::insert_keeps_settled(set, element, tag);
    assert forall|e: T, t: Tag| #[trigger] after.has(e, t) implies set.has(e, t) || (e == element
        && t == tag) by {}
    assert forall|e: T, t: Tag| #[trigger] after.has(e, t) implies 0 < t.1 <= crate::counts::count(
        clock,
        t.0,
    ) by {
        assert(set.has(e, t) || t == tag);
    }
    assert forall|a: T, b: T, t: Tag|
        #![trigger after.has(a, t), after.has(b, t)]
        after.has(a, t) && after.has(b, t) implies a == b by {
        if set.has(a, t) {
            assert(set.knows(t));
        }
        if set.has(b, t) {
            assert(set.knows(t));
        }
    }
}

proof fn remove_keeps_tags<T: Ord + Clone>(
    set: Tagged<T>,
    removals: Set<Removal>,
    element: T,
    canvas: Canvas,
    node: NodeId,
)
    requires
        has_room(canvas, node),
        set.is_settled(),
        tags_unshared(set),
        active_within(set, canvas.clock),
        removals_within(removals, canvas.clock),
        set.removed == removed_tags(removals),
    ensures
        set.without(element).is_settled(),
        tags_unshared(set.without(element)),
        active_within(set.without(element), canvas.ticked(node)),
        ({
            let more = removals.union(removals_of(set, element, (node, canvas.next_time())));
            &&& removals_within(more, canvas.ticked(node))
            &&& set.without(element).removed == removed_tags(more)
        }),
{
    let after = set.without(element);
    let stamp = (node, canvas.next_time());
    let clock = canvas.ticked(node);
    let new = removals_of(set, element, stamp);
    next_time_is_fresh(canvas, node);
    stays_within(set, removals, canvas.clock, clock);
    crate::sets::orset::remove_keeps_settled(set, element);
    removed_tags_of_element(set, element, stamp);
    removed_tags_join(removals, new);
    assert forall|e: T, t: Tag| #[trigger] after.has(e, t) implies set.has(e, t) by {}
    assert forall|removal: Removal| #[trigger] removals.union(new).contains(removal) implies 0
        < removal.0.1 < removal.1.1 <= crate::counts::count(clock, removal.1.0) by {
        if !removals.contains(removal) {
            assert(set.has(element, removal.0));
            assert(crate::counts::count(canvas.clock, removal.0.0) < canvas.next_time());
        }
    }
    assert forall|a: T, b: T, t: Tag|
        #![trigger after.has(a, t), after.has(b, t)]
        after.has(a, t) && after.has(b, t) implies a == b by {
        assert(set.has(a, t) && set.has(b, t));
    }
}

/// A paint beats everything that the canvas has observed: the pixel has the new color, every
/// other pixel keeps its own, and the number of paints is one more.
pub proof fn paint_wins(canvas: Canvas, coord: PixelCoord, color: Rgba, node: NodeId)
    requires
        CanvasDocument::valid(canvas),
        has_room(canvas, node),
        canvas.paint_counts.dom().finite(),
    ensures
        canvas.painted(coord, color, node).color_at(coord) == color,
        canvas.painted(coord, color, node).pixels[coord].node_id == node,
        forall|other: PixelCoord|
            other != coord ==> canvas.painted(coord, color, node).color_at(other)
                == #[trigger] canvas.color_at(other),
        total(canvas.painted(coord, color, node).paint_counts) == total(canvas.paint_counts) + 1,
{
    next_time_is_fresh(canvas, node);
    if canvas.pixels.contains_key(coord) {
        assert(canvas.pixels[coord].timestamp <= crate::counts::count(
            canvas.clock,
            canvas.pixels[coord].node_id,
        ));
        assert(crate::counts::count(canvas.clock, canvas.pixels[coord].node_id)
            < canvas.next_time());
    }
    crate::counters::g_counter::increment_adds_one(
        canvas.paint_counts,
        node,
        (crate::counts::count(canvas.paint_counts, node) + 1) as u64,
    );
}

/// A paint that happens after a merge beats what either side had painted, however often.
pub proof fn paint_after_merge_wins(
    a: Canvas,
    b: Canvas,
    coord: PixelCoord,
    color: Rgba,
    node: NodeId,
)
    requires
        CanvasDocument::valid(a),
        CanvasDocument::valid(b),
        has_room(a.merged(b), node),
        a.merged(b).paint_counts.dom().finite(),
    ensures
        a.merged(b).painted(coord, color, node).color_at(coord) == color,
{
    CanvasDocument::merge_keeps_valid(a, b);
    paint_wins(a.merged(b), coord, color, node);
}

/// A cursor is where it was last moved to, and no other cursor moves with it.
pub proof fn cursor_move_wins(canvas: Canvas, user: NodeId, to: PixelCoord, node: NodeId)
    requires
        CanvasDocument::valid(canvas),
        has_room(canvas, node),
    ensures
        canvas.cursor_moved(user, to, node).cursors.contains_key(user),
        canvas.cursor_moved(user, to, node).cursors[user].value == to,
        canvas.cursor_moved(user, to, node).cursors.remove(user) == canvas.cursors.remove(user),
{
    next_time_is_fresh(canvas, node);
    if canvas.cursors.contains_key(user) {
        assert(canvas.cursors[user].timestamp <= crate::counts::count(
            canvas.clock,
            canvas.cursors[user].node_id,
        ));
        assert(crate::counts::count(canvas.clock, canvas.cursors[user].node_id)
            < canvas.next_time());
    }
    assert(canvas.cursor_moved(user, to, node).cursors.remove(user)
        =~= canvas.cursors.remove(user));
}

/// Every update is a new version: a peer at the version before it is owed a delta that is not
/// empty, and the new version includes the old one and not the other way round.
pub proof fn update_is_visible(canvas: Canvas, update: Update, node: NodeId)
    requires
        has_room(canvas, node),
    ensures
        !CanvasDocument::vacuous(
            CanvasDocument::delta_of(updated(canvas, update, node), canvas.clock),
        ),
        CanvasDocument::covers(updated(canvas, update, node).clock, canvas.clock),
        !CanvasDocument::covers(canvas.clock, updated(canvas, update, node).clock),
{
    let after = updated(canvas, update, node);
    next_time_is_fresh(canvas, node);
    let change = crate::counts::counts_beyond(after.clock, canvas.clock);
    assert(crate::counts::count(canvas.clock, node) < canvas.next_time());
    assert(crate::counts::count(after.clock, node) == canvas.next_time());
    assert(change.dom().contains(node));
}

/// A set with a new add, and one with an element removed, have a change since before.
proof fn set_change_is_told<T: Ord + Clone>(
    set: Tagged<T>,
    removals: Set<Removal>,
    element: T,
    canvas: Canvas,
    node: NodeId,
)
    requires
        has_room(canvas, node),
        set.is_settled(),
    ensures
        ({
            let stamp = (node, canvas.next_time());
            let more = removals.union(removals_of(set, element, stamp));
            &&& !ORSet::<T>::vacuous(
                part_since(set.inserted(element, stamp), removals, canvas.clock),
            )
            &&& set.elements().contains(element) ==> !ORSet::<T>::vacuous(
                part_since(set.without(element), more, canvas.clock),
            )
        }),
{
    let stamp = (node, canvas.next_time());
    let more = removals.union(removals_of(set, element, stamp));
    next_time_is_fresh(canvas, node);
    assert(crate::counts::count(canvas.clock, node) < canvas.next_time());
    let added = part_since(set.inserted(element, stamp), removals, canvas.clock);
    assert(set.inserted(element, stamp).has(element, stamp));
    assert(added.adds.contains((element, stamp)));
    if set.elements().contains(element) {
        let dropped = part_since(set.without(element), more, canvas.clock);
        assert(set.active.contains_key(element));
        let tag = choose|tag: Tag| #[trigger] set.has(element, tag);
        assert(removals_beyond(more, canvas.clock).contains((tag, stamp)));
        assert(dropped.removed.contains(tag));
    }
}

/// Every add to the users or the palette, and every removal of what is in them, is told of by the
/// delta since before it.
pub proof fn set_updates_are_told(canvas: Canvas, user: NodeId, color: Rgba, node: NodeId)
    requires
        CanvasDocument::valid(canvas),
        has_room(canvas, node),
    ensures
        !ORSet::<NodeId>::vacuous(canvas.joined(user, node).change_since(canvas.clock).users),
        !ORSet::<Rgba>::vacuous(canvas.color_added(color, node).change_since(canvas.clock).palette),
        canvas.users.elements().contains(user) ==> !ORSet::<NodeId>::vacuous(
            canvas.left(user, node).change_since(canvas.clock).users,
        ),
        canvas.palette.elements().contains(color) ==> !ORSet::<Rgba>::vacuous(
            canvas.color_removed(color, node).change_since(canvas.clock).palette,
        ),
{
    set_change_is_told(canvas.users, canvas.user_removals, user, canvas, node);
    set_change_is_told(canvas.palette, canvas.palette_removals, color, canvas, node);
}

/// A user that was removed is not active and has no cursor; a user that was added is active.
pub proof fn membership_follows_updates(canvas: Canvas, user: NodeId, node: NodeId)
    ensures
        !canvas.left(user, node).users.elements().contains(user),
        !canvas.left(user, node).cursors.contains_key(user),
        canvas.joined(user, node).users.elements().contains(user),
{
}

/// Add wins: a user whom one side added with a tag that neither side has removed is active after
/// a merge, even where the other side removed the user.
pub proof fn concurrent_add_of_user_wins(a: Canvas, b: Canvas, user: NodeId, tag: Tag)
    requires
        a.users.has(user, tag) || b.users.has(user, tag),
        !a.users.removed.contains(tag),
        !b.users.removed.contains(tag),
    ensures
        a.merged(b).users.elements().contains(user),
        b.merged(a).users.elements().contains(user),
{
    crate::sets::orset::unseen_add_survives(a.users, b.users, user, tag);
    crate::sets::orset::unseen_add_survives(b.users, a.users, user, tag);
}

/// A merge leaves no cursor of a user who was active and is not any more, and drops no other.
pub proof fn merge_evicts_departed(a: Canvas, b: Canvas, user: NodeId)
    ensures
        a.departs(b, user) ==> !a.merged(b).cursors.contains_key(user),
        !a.departs(b, user) ==> (a.merged(b).cursors.contains_key(user)
            <==> a.cursors.contains_key(user) || b.cursors.contains_key(user)),
{
}

/// Apart from the cursors, grouping never matters: whichever two of three canvases are merged
/// first, the pixels, users, palette, counts, times and removals are the same.
pub proof fn merge_associative_but_for_cursors(a: Canvas, b: Canvas, c: Canvas)
    ensures
        ({
            let left = a.merged(b).merged(c);
            let right = a.merged(b.merged(c));
            &&& left.pixels == right.pixels
            &&& left.users == right.users
            &&& left.palette == right.palette
            &&& crate::counts::same_counts(left.paint_counts, right.paint_counts)
            &&& crate::counts::same_counts(left.clock, right.clock)
            &&& left.user_removals == right.user_removals
            &&& left.palette_removals == right.palette_removals
            &&& crate::counts::same_counts(left.paint_times, right.paint_times)
        }),
{
    let bare = |canvas: Canvas| Canvas { cursors: Map::empty(), ..canvas };
    CanvasDocument::merge_associative(bare(a), bare(b), bare(c));
}

/// The number of paints never decreases: not by a merge, nor by any update.
pub proof fn paint_total_is_monotonic(a: Canvas, b: Canvas, update: Update, node: NodeId)
    requires
        a.paint_counts.dom().finite(),
        b.paint_counts.dom().finite(),
        has_room(a, node),
    ensures
        total(a.merged(b).paint_counts) >= total(a.paint_counts),
        total(a.merged(b).paint_counts) >= total(b.paint_counts),
        total(updated(a, update, node).paint_counts) >= total(a.paint_counts),
{
    crate::counters::g_counter::merge_never_decreases(a.paint_counts, b.paint_counts);
    crate::counters::g_counter::increment_adds_one(
        a.paint_counts,
        node,
        (crate::counts::count(a.paint_counts, node) + 1) as u64,
    );
}

/// Merging what was already merged changes nothing: a merge result that is merged into the state
/// that it was made of is that result. It is where the state holds no cursor of a user that
/// departs.
pub proof fn merging_again_changes_nothing(a: Canvas, b: Canvas)
    requires
        a.has_no_cursor_of(a.departures(b)),
    ensures
        CanvasDocument::same(a.merged(a.merged(b)), a.merged(b)),
{
    let once = a.merged(b);
    let again = a.merged(once);
    assert(again.clock =~= once.clock);
    assert(again.paint_counts =~= once.paint_counts);
    assert(again.paint_times =~= once.paint_times);
    assert(again.user_removals =~= once.user_removals);
    assert(again.palette_removals =~= once.palette_removals);
    crate::maps::lww_map::registers_associate(a.pixels, a.pixels, b.pixels);
    crate::maps::lww_map::registers_repeat(a.pixels);
    remerged_set(a.users, b.users);
    remerged_set(a.palette, b.palette);
    let gone = a.departures(b);
    let all = crate::maps::lww_map::join_registers(a.cursors, b.cursors);
    assert forall|user: NodeId| a.departures(once).contains(user) implies gone.contains(user) by {
        if once.users.elements().contains(user) {}
    }
    assert forall|user: NodeId| again.cursors.contains_key(user)
        == once.cursors.contains_key(user) by {
        if gone.contains(user) {
            assert(!a.cursors.contains_key(user));
        }
    }
    assert forall|user: NodeId| again.cursors.contains_key(user) implies again.cursors[user]
        == once.cursors[user] by {
        assert(once.cursors[user] == all[user]);
    }
    assert(again.cursors =~= once.cursors);
}

proof fn remerged_set<T: Ord + Clone>(a: Tagged<T>, b: Tagged<T>)
    ensures
        ORSet::<T>::join(a, ORSet::<T>::join(a, b)) == ORSet::<T>::join(a, b),
{
    let once = ORSet::<T>::join(a, b);
    crate::sets::orset::absorbed_has(a, b.everything());
    crate::sets::orset::absorbed_has(a, once.everything());
    crate::sets::orset::settled_same(ORSet::<T>::join(a, once), once);
}

/// The delta since the empty version is the full state: a receiver that applies it has merged
/// the sender.
pub proof fn full_delta_is_merge(sender: Canvas, receiver: Canvas)
    requires
        CanvasDocument::valid(sender),
        CanvasDocument::adds_only(sender, receiver),
    ensures
        CanvasDocument::same(
            receiver.changed(sender.change_since(Map::empty())),
            receiver.merged(sender),
        ),
{
    nothing_is_covered(sender, receiver);
    CanvasDocument::delta_is_merge(sender, Map::empty(), receiver);
}

/// The delta since the empty version replays the full state: an empty canvas that applies it is
/// the canvas of the sender.
pub proof fn full_delta_replays_state(sender: Canvas)
    requires
        CanvasDocument::valid(sender),
    ensures
        CanvasDocument::same(blank().changed(sender.change_since(Map::empty())), sender),
{
    let replayed = blank().changed(sender.change_since(Map::empty()));
    nothing_is_covered(sender, blank());
    assert forall|user: NodeId| !blank().departures(sender).contains(user) by {
        kept_by_empty_set(sender.users);
    }
    assert(blank().departures(sender) =~= Set::empty());
    super::document::departures_are_mutual(sender, blank());
    full_delta_is_merge(sender, blank());
    let joined = blank().merged(sender);
    kept_by_empty_set(sender.users);
    kept_by_empty_set(sender.palette);
    assert(joined.pixels =~= sender.pixels);
    assert(joined.cursors =~= sender.cursors);
    assert(joined.user_removals =~= sender.user_removals);
    assert(joined.palette_removals =~= sender.palette_removals);
    assert forall|n: NodeId| #[trigger] crate::counts::count(replayed.paint_times, n)
        == crate::counts::count(sender.paint_times, n) by {
        assert(crate::counts::count(replayed.paint_times, n) == crate::counts::count(
            joined.paint_times,
            n,
        ));
    }
    assert forall|n: NodeId| #[trigger] crate::counts::count(replayed.clock, n)
        == crate::counts::count(sender.clock, n) by {
        assert(crate::counts::count(replayed.clock, n) == crate::counts::count(joined.clock, n));
    }
    assert forall|n: NodeId| #[trigger] crate::counts::count(replayed.paint_counts, n)
        == crate::counts::count(sender.paint_counts, n) by {
        assert(crate::counts::count(replayed.paint_counts, n) == crate::counts::count(
            joined.paint_counts,
            n,
        ));
    }
}

/// A settled set that is merged into an empty one is what it was.
proof fn kept_by_empty_set<T: Ord + Clone>(set: Tagged<T>)
    requires
        set.is_settled(),
    ensures
        ORSet::<T>::join(Tagged { active: Map::empty(), removed: Set::empty() }, set) == set,
{
    let empty = Tagged::<T> { active: Map::empty(), removed: Set::empty() };
    crate::sets::orset::absorbed_has(empty, set.everything());
    crate::sets::orset::settled_same(ORSet::<T>::join(empty, set), set);
}

/// The empty version covers nothing of a valid canvas.
proof fn nothing_is_covered(sender: Canvas, receiver: Canvas)
    requires
        CanvasDocument::valid(sender),
    ensures
        CanvasDocument::bridges(sender, Map::empty(), receiver),
        CanvasDocument::covers(receiver.clock, Map::empty()),
{
    let since = Map::<NodeId, u64>::empty();
    super::removals::everything_is_since_nothing(
        sender.users,
        sender.user_removals,
        sender.clock,
    );
    super::removals::everything_is_since_nothing(
        sender.palette,
        sender.palette_removals,
        sender.clock,
    );
    assert forall|node: NodeId|
        #![trigger crate::counts::count(sender.paint_counts, node)]
        #![trigger crate::counts::count(sender.paint_times, node)]
        crate::counts::count(sender.paint_times, node) <= crate::counts::count(since, node) implies
            crate::counts::count(sender.paint_counts, node) == 0 by {
        assert(crate::counts::count(sender.paint_times, node) >= crate::counts::count(
            sender.paint_counts,
            node,
        ));
    }
}

} // verus!

//! What each operation does to a canvas, field by field: what it changes, and what it leaves.
use super::document::{blank, Canvas, CanvasDocument, Change, PixelCoord, Rgba};
use super::laws::{has_room, next_time_is_fresh};
use super::removals::Removal;
use crate::registers::LWWRegister;
use crate::sets::orset::{
    add_is_of_one_element, delta_goes_by_tags, merge_goes_by_tags, removal_is_of_one_element,
    Tag, Tagged, TaggedDelta,
};
use crate::traits::{Crdt, DeltaCrdt};
use crate::NodeId;
use vstd::prelude::*;

verus! {

/// A new canvas has nothing on it, and every pixel of it is opaque white.
pub proof fn new_canvas_is_empty()
    ensures
        forall|coord: PixelCoord| !#[trigger] blank().pixels.contains_key(coord),
        forall|user: NodeId| !#[trigger] blank().users.active.contains_key(user),
        forall|tag: Tag| !#[trigger] blank().users.removed.contains(tag),
        forall|user: NodeId| !#[trigger] blank().cursors.contains_key(user),
        forall|color: Rgba| !#[trigger] blank().palette.active.contains_key(color),
        forall|tag: Tag| !#[trigger] blank().palette.removed.contains(tag),
        forall|node: NodeId| !#[trigger] blank().paint_counts.contains_key(node),
        forall|node: NodeId| !#[trigger] blank().clock.contains_key(node),
        forall|removal: Removal| !#[trigger] blank().user_removals.contains(removal),
        forall|removal: Removal| !#[trigger] blank().palette_removals.contains(removal),
        forall|node: NodeId| !#[trigger] blank().paint_times.contains_key(node),
        forall|coord: PixelCoord| #[trigger]
            blank().color_at(coord) == (255u8, 255u8, 255u8, 255u8),
{
}

/// A pixel shows the color that was written to it, and opaque white where none was.
pub proof fn pixel_shows_what_was_written(canvas: Canvas, coord: PixelCoord)
    ensures
        canvas.pixels.contains_key(coord) ==> canvas.color_at(coord) == canvas.pixels[coord].value,
        !canvas.pixels.contains_key(coord) ==> canvas.color_at(coord) == (
            255u8,
            255u8,
            255u8,
            255u8,
        ),
{
}

/// There is room exactly where no component of the clock, nor the node's count of paints, is at the
/// end of its range; the clock of a document has finitely many components.
pub proof fn room_by_entries(canvas: Canvas, node: NodeId)
    ensures
        has_room(canvas, node) <==> canvas.clock.dom().finite() && (forall|n: NodeId| #[trigger]
            canvas.clock.contains_key(n) ==> canvas.clock[n] < u64::MAX) && (
        canvas.paint_counts.contains_key(node) ==> canvas.paint_counts[node] < u64::MAX),
{
    crate::clocks::room_by_entries(canvas.clock, 1);
}

/// The clock after an update by `node`: the node's component is later than every component before,
/// and every other component is what it was.
pub open spec fn has_ticked(
    before: Map<NodeId, u64>,
    after: Map<NodeId, u64>,
    node: NodeId,
) -> bool {
    &&& after.contains_key(node)
    &&& forall|n: NodeId| #[trigger] before.contains_key(n) ==> before[n] < after[node]
    &&& after[node] > 0
    &&& forall|n: NodeId|
        n != node ==> (#[trigger] after.contains_key(n) <==> before.contains_key(n))
    &&& forall|n: NodeId| n != node && #[trigger] after.contains_key(n) ==> after[n] == before[n]
}

/// No earlier write is at the key, or the one there is no later than the write.
pub open spec fn gives_way<K, V>(
    before: Map<K, LWWRegister<V>>,
    key: K,
    write: LWWRegister<V>,
) -> bool {
    before.contains_key(key) ==> write.timestamp > before[key].timestamp || (write.timestamp
        == before[key].timestamp && write.node_id > before[key].node_id)
}

/// `after` is `before` with the write under its key, where the earlier one gives way to it; under
/// every other key it is what it was.
pub open spec fn has_written<K, V>(
    before: Map<K, LWWRegister<V>>,
    after: Map<K, LWWRegister<V>>,
    key: K,
    write: LWWRegister<V>,
) -> bool {
    &&& after.contains_key(key)
    &&& gives_way(before, key, write) ==> after[key] == write
    &&& !gives_way(before, key, write) ==> after[key] == before[key]
    &&& forall|k: K| k != key ==> (#[trigger] after.contains_key(k) <==> before.contains_key(k))
    &&& forall|k: K| k != key && #[trigger] after.contains_key(k) ==> after[k] == before[k]
}

/// `after` is `before` without the key; under every other key it is what it was.
pub open spec fn has_dropped<K, V>(before: Map<K, V>, after: Map<K, V>, key: K) -> bool {
    &&& !after.contains_key(key)
    &&& forall|k: K| k != key ==> (#[trigger] after.contains_key(k) <==> before.contains_key(k))
    &&& forall|k: K| #[trigger] after.contains_key(k) ==> after[k] == before[k]
}

/// `after` is `before` with the element, kept alive by the tag; all else is what it was.
pub open spec fn has_added<T>(
    before: Tagged<T>,
    after: Tagged<T>,
    element: T,
    tag: Tag,
) -> bool {
    &&& after.active.contains_key(element)
    &&& after.active[element].contains(tag)
    &&& forall|t: Tag|
        t != tag ==> (#[trigger] after.active[element].contains(t) <==> before.active.contains_key(
            element,
        ) && before.active[element].contains(t))
    &&& forall|e: T|
        e != element ==> (#[trigger] after.active.contains_key(e) <==> before.active.contains_key(
            e,
        ))
    &&& forall|e: T|
        e != element && #[trigger] after.active.contains_key(e) ==> after.active[e]
            == before.active[e]
    &&& forall|t: Tag| #[trigger] after.removed.contains(t) <==> before.removed.contains(t)
}

/// `after` is `before` without the element, whose tags have become tombstones; all else is what it
/// was.
pub open spec fn has_removed<T>(before: Tagged<T>, after: Tagged<T>, element: T) -> bool {
    &&& has_dropped(before.active, after.active, element)
    &&& forall|t: Tag| #[trigger]
        after.removed.contains(t) <==> before.removed.contains(t) || (before.active.contains_key(
            element,
        ) && before.active[element].contains(t))
}

/// `after` has the removals of `before`, and one for each tag that the element had, at the stamp;
/// and no others.
pub open spec fn has_dated<T>(
    before: Set<Removal>,
    after: Set<Removal>,
    set: Tagged<T>,
    element: T,
    stamp: Tag,
) -> bool {
    forall|removal: Removal| #[trigger]
        after.contains(removal) <==> before.contains(removal) || (removal.1 == stamp
            && set.active.contains_key(element) && set.active[element].contains(removal.0))
}

/// Painting writes the color to one pixel, at a time later than everything seen, in the name of the
/// node; counts one paint of the node, at that time; and changes nothing else.
pub proof fn paint_changes_one_pixel(canvas: Canvas, coord: PixelCoord, color: Rgba, node: NodeId)
    requires
        has_room(canvas, node),
    ensures
        ({
            let after = canvas.painted(coord, color, node);
            let time = after.clock[node];
            &&& has_ticked(canvas.clock, after.clock, node)
            &&& has_written(
                canvas.pixels,
                after.pixels,
                coord,
                LWWRegister { value: color, timestamp: time, node_id: node },
            )
            &&& after.paint_counts.contains_key(node)
            &&& after.paint_counts[node] == (if canvas.paint_counts.contains_key(node) {
                canvas.paint_counts[node]
            } else {
                0
            }) + 1
            &&& after.paint_counts.remove(node) == canvas.paint_counts.remove(node)
            &&& after.paint_times.contains_key(node)
            &&& after.paint_times[node] == time
            &&& after.paint_times.remove(node) == canvas.paint_times.remove(node)
            &&& after.users == canvas.users
            &&& after.cursors == canvas.cursors
            &&& after.palette == canvas.palette
            &&& after.user_removals == canvas.user_removals
            &&& after.palette_removals == canvas.palette_removals
        }),
{
    let after = canvas.painted(coord, color, node);
    ticks_one_component(canvas, node);
    assert(after.paint_counts.remove(node) =~= canvas.paint_counts.remove(node));
    assert(after.paint_times.remove(node) =~= canvas.paint_times.remove(node));
}

/// Every update ticks the clock of its node.
proof fn ticks_one_component(canvas: Canvas, node: NodeId)
    requires
        has_room(canvas, node),
    ensures
        has_ticked(canvas.clock, canvas.ticked(node), node),
        canvas.ticked(node)[node] == canvas.next_time(),
{
    next_time_is_fresh(canvas, node);
    assert forall|n: NodeId| #[trigger] canvas.clock.contains_key(n) implies canvas.clock[n]
        < canvas.next_time() by {
        assert(crate::counts::count(canvas.clock, n) < canvas.next_time());
    }
}

/// On a valid canvas the earlier write gives way to every paint and to every move of a cursor.
pub proof fn updates_win(
    canvas: Canvas,
    coord: PixelCoord,
    color: Rgba,
    user: NodeId,
    to: PixelCoord,
    node: NodeId,
)
    requires
        CanvasDocument::valid(canvas),
        has_room(canvas, node),
    ensures
        canvas.painted(coord, color, node).pixels[coord].value == color,
        canvas.painted(coord, color, node).pixels[coord].node_id == node,
        canvas.painted(coord, color, node).color_at(coord) == color,
        canvas.cursor_moved(user, to, node).cursors[user].value == to,
        canvas.cursor_moved(user, to, node).cursors[user].node_id == node,
{
    next_time_is_fresh(canvas, node);
    if canvas.pixels.contains_key(coord) {
        assert(crate::counts::count(canvas.clock, canvas.pixels[coord].node_id)
            < canvas.next_time());
    }
    if canvas.cursors.contains_key(user) {
        assert(crate::counts::count(canvas.clock, canvas.cursors[user].node_id)
            < canvas.next_time());
    }
}

/// Registering a user makes that user active, with a tag of the node at a time later than everything
/// seen, and changes nothing else.
pub proof fn joining_is_of_one_user(canvas: Canvas, user: NodeId, node: NodeId)
    requires
        has_room(canvas, node),
    ensures
        ({
            let after = canvas.joined(user, node);
            &&& has_ticked(canvas.clock, after.clock, node)
            &&& has_added(canvas.users, after.users, user, (node, after.clock[node]))
            &&& after.pixels == canvas.pixels
            &&& after.cursors == canvas.cursors
            &&& after.palette == canvas.palette
            &&& after.paint_counts == canvas.paint_counts
            &&& after.user_removals == canvas.user_removals
            &&& after.palette_removals == canvas.palette_removals
            &&& after.paint_times == canvas.paint_times
        }),
{
    ticks_one_component(canvas, node);
    let tag = (node, canvas.next_time());
    assert forall|e: NodeId| e != user implies (#[trigger] canvas.users.inserted(
        user,
        tag,
    ).active.contains_key(e) <==> canvas.users.active.contains_key(e)) by {
        add_is_of_one_element(canvas.users, user, tag, e);
    }
}

/// Removing a user takes that user from the active ones and drops their cursor, dates the removal
/// of each of their tags, and changes nothing else: every other user stays active with their
/// cursor.
pub proof fn leaving_is_of_one_user(canvas: Canvas, user: NodeId, node: NodeId)
    requires
        has_room(canvas, node),
    ensures
        ({
            let after = canvas.left(user, node);
            &&& has_ticked(canvas.clock, after.clock, node)
            &&& has_removed(canvas.users, after.users, user)
            &&& has_dropped(canvas.cursors, after.cursors, user)
            &&& has_dated(
                canvas.user_removals,
                after.user_removals,
                canvas.users,
                user,
                (node, after.clock[node]),
            )
            &&& after.pixels == canvas.pixels
            &&& after.palette == canvas.palette
            &&& after.paint_counts == canvas.paint_counts
            &&& after.palette_removals == canvas.palette_removals
            &&& after.paint_times == canvas.paint_times
        }),
{
    ticks_one_component(canvas, node);
    assert forall|e: NodeId| e != user implies (#[trigger] canvas.users.without(
        user,
    ).active.contains_key(e) <==> canvas.users.active.contains_key(e)) by {
        removal_is_of_one_element(canvas.users, user, e);
    }
}

/// Dropping the cursor of a user removes that user's cursor and leaves the cursor of every other
/// user where it was, and everything else.
pub proof fn drop_is_of_one_cursor(canvas: Canvas, user: NodeId, node: NodeId)
    requires
        has_room(canvas, node),
    ensures
        ({
            let after = canvas.cursor_dropped(user, node);
            &&& has_ticked(canvas.clock, after.clock, node)
            &&& !after.cursors.contains_key(user)
            &&& forall|other: NodeId|
                other != user ==> (#[trigger] after.cursors.contains_key(other)
                    <==> canvas.cursors.contains_key(other))
            &&& forall|other: NodeId| #[trigger]
                after.cursors.contains_key(other) ==> after.cursors[other] == canvas.cursors[other]
            &&& after.pixels == canvas.pixels
            &&& after.users == canvas.users
            &&& after.palette == canvas.palette
            &&& after.paint_counts == canvas.paint_counts
            &&& after.user_removals == canvas.user_removals
            &&& after.palette_removals == canvas.palette_removals
            &&& after.paint_times == canvas.paint_times
        }),
{
    ticks_one_component(canvas, node);
}

/// Adding a color puts it in the palette, with a tag of the node at a time later than everything
/// seen, and changes nothing else.
pub proof fn adding_is_of_one_color(canvas: Canvas, color: Rgba, node: NodeId)
    requires
        has_room(canvas, node),
    ensures
        ({
            let after = canvas.color_added(color, node);
            &&& has_ticked(canvas.clock, after.clock, node)
            &&& has_added(canvas.palette, after.palette, color, (node, after.clock[node]))
            &&& after.pixels == canvas.pixels
            &&& after.users == canvas.users
            &&& after.cursors == canvas.cursors
            &&& after.paint_counts == canvas.paint_counts
            &&& after.user_removals == canvas.user_removals
            &&& after.palette_removals == canvas.palette_removals
            &&& after.paint_times == canvas.paint_times
        }),
{
    ticks_one_component(canvas, node);
    let tag = (node, canvas.next_time());
    assert forall|e: Rgba| e != color implies (#[trigger] canvas.palette.inserted(
        color,
        tag,
    ).active.contains_key(e) <==> canvas.palette.active.contains_key(e)) by {
        add_is_of_one_element(canvas.palette, color, tag, e);
    }
}

/// Removing a color takes it from the palette, dates the removal of each of its tags, and changes
/// nothing else.
pub proof fn removing_is_of_one_color(canvas: Canvas, color: Rgba, node: NodeId)
    requires
        has_room(canvas, node),
    ensures
        ({
            let after = canvas.color_removed(color, node);
            &&& has_ticked(canvas.clock, after.clock, node)
            &&& has_removed(canvas.palette, after.palette, color)
            &&& has_dated(
                canvas.palette_removals,
                after.palette_removals,
                canvas.palette,
                color,
                (node, after.clock[node]),
            )
            &&& after.pixels == canvas.pixels
            &&& after.users == canvas.users
            &&& after.cursors == canvas.cursors
            &&& after.paint_counts == canvas.paint_counts
            &&& after.user_removals == canvas.user_removals
            &&& after.paint_times == canvas.paint_times
        }),
{
    ticks_one_component(canvas, node);
    assert forall|e: Rgba| e != color implies (#[trigger] canvas.palette.without(
        color,
    ).active.contains_key(e) <==> canvas.palette.active.contains_key(e)) by {
        removal_is_of_one_element(canvas.palette, color, e);
    }
}

/// Moving a cursor puts it at the place, at a time later than everything seen, and changes nothing
/// else.
pub proof fn move_is_of_one_cursor(canvas: Canvas, user: NodeId, to: PixelCoord, node: NodeId)
    requires
        has_room(canvas, node),
    ensures
        ({
            let after = canvas.cursor_moved(user, to, node);
            &&& has_ticked(canvas.clock, after.clock, node)
            &&& has_written(
                canvas.cursors,
                after.cursors,
                user,
                LWWRegister { value: to, timestamp: after.clock[node], node_id: node },
            )
            &&& after.pixels == canvas.pixels
            &&& after.users == canvas.users
            &&& after.palette == canvas.palette
            &&& after.paint_counts == canvas.paint_counts
            &&& after.user_removals == canvas.user_removals
            &&& after.palette_removals == canvas.palette_removals
            &&& after.paint_times == canvas.paint_times
        }),
{
    ticks_one_component(canvas, node);
}

/// `after` has under each key the later of the writes that `a` and `b` have there, by time, then by
/// node; where these are the same, that of `a`.
pub open spec fn has_later_writes<K, V>(
    a: Map<K, LWWRegister<V>>,
    b: Map<K, LWWRegister<V>>,
    after: Map<K, LWWRegister<V>>,
) -> bool {
    &&& forall|k: K| #[trigger] after.contains_key(k) <==> a.contains_key(k) || b.contains_key(k)
    &&& forall|k: K| #[trigger]
        after.contains_key(k) ==> after[k] == if !b.contains_key(k) || (a.contains_key(k) && !(
        b[k].timestamp > a[k].timestamp || (b[k].timestamp == a[k].timestamp && b[k].node_id
            > a[k].node_id))) {
            a[k]
        } else {
            b[k]
        }
}

/// `after` has of each node the greater of what `a` and `b` have.
pub open spec fn has_greater_counts(
    a: Map<NodeId, u64>,
    b: Map<NodeId, u64>,
    after: Map<NodeId, u64>,
) -> bool {
    &&& forall|n: NodeId| #[trigger]
        after.contains_key(n) <==> a.contains_key(n) || b.contains_key(n)
    &&& forall|n: NodeId| #[trigger] a.contains_key(n) ==> after[n] >= a[n]
    &&& forall|n: NodeId| #[trigger] b.contains_key(n) ==> after[n] >= b[n]
    &&& forall|n: NodeId| #[trigger]
        after.contains_key(n) ==> (a.contains_key(n) && after[n] == a[n]) || (b.contains_key(n)
            && after[n] == b[n])
}

/// A tag is active for an element.
pub open spec fn keeps_alive<T>(set: Tagged<T>, element: T, tag: Tag) -> bool {
    set.active.contains_key(element) && set.active[element].contains(tag)
}

/// `after` has the tags that are active on either side and removed on neither, and the tombstones
/// of both.
pub open spec fn has_surviving_tags<T>(a: Tagged<T>, b: Tagged<T>, after: Tagged<T>) -> bool {
    &&& forall|e: T, t: Tag| #[trigger]
        keeps_alive(after, e, t) <==> (keeps_alive(a, e, t) || keeps_alive(b, e, t))
            && !a.removed.contains(t) && !b.removed.contains(t)
    &&& forall|e: T| #[trigger]
        after.active.contains_key(e) <==> exists|t: Tag| #[trigger] keeps_alive(after, e, t)
    &&& forall|t: Tag| #[trigger]
        after.removed.contains(t) <==> a.removed.contains(t) || b.removed.contains(t)
}

/// What a merge has: of each pixel the later write, the surviving tags of users and colors, of each
/// node the greater counts and times, the removals of both sides; and of each cursor the later
/// position, but none of a user who was active on a side and is not any more.
pub proof fn merge_field_by_field(a: Canvas, b: Canvas)
    ensures
        ({
            let after = a.merged(b);
            &&& has_later_writes(a.pixels, b.pixels, after.pixels)
            &&& has_surviving_tags(a.users, b.users, after.users)
            &&& has_surviving_tags(a.palette, b.palette, after.palette)
            &&& has_greater_counts(a.paint_counts, b.paint_counts, after.paint_counts)
            &&& has_greater_counts(a.clock, b.clock, after.clock)
            &&& has_greater_counts(a.paint_times, b.paint_times, after.paint_times)
            &&& forall|r: Removal| #[trigger]
                after.user_removals.contains(r) <==> a.user_removals.contains(r)
                    || b.user_removals.contains(r)
            &&& forall|r: Removal| #[trigger]
                after.palette_removals.contains(r) <==> a.palette_removals.contains(r)
                    || b.palette_removals.contains(r)
            &&& forall|user: NodeId| #[trigger]
                after.cursors.contains_key(user) <==> (a.cursors.contains_key(user)
                    || b.cursors.contains_key(user)) && !((a.users.active.contains_key(user)
                    || b.users.active.contains_key(user)) && !after.users.active.contains_key(
                    user,
                ))
            &&& forall|user: NodeId| #[trigger]
                after.cursors.contains_key(user) ==> after.cursors[user] == if !b.cursors.contains_key(
                    user,
                ) || (a.cursors.contains_key(user) && !(b.cursors[user].timestamp
                    > a.cursors[user].timestamp || (b.cursors[user].timestamp
                    == a.cursors[user].timestamp && b.cursors[user].node_id
                    > a.cursors[user].node_id))) {
                    a.cursors[user]
                } else {
                    b.cursors[user]
                }
        }),
{
    let after = a.merged(b);
    survivors_of_merge(a.users, b.users);
    survivors_of_merge(a.palette, b.palette);
    assert forall|user: NodeId| #[trigger] after.cursors.contains_key(user) <==> (
    a.cursors.contains_key(user) || b.cursors.contains_key(user)) && !((
    a.users.active.contains_key(user) || b.users.active.contains_key(user))
        && !after.users.active.contains_key(user)) by {
        assert(a.departures(b).contains(user) <==> a.departs(b, user));
    }
}

proof fn survivors_of_merge<T: Ord + Clone>(a: Tagged<T>, b: Tagged<T>)
    ensures
        has_surviving_tags(a, b, crate::sets::orset::ORSet::<T>::join(a, b)),
{
    let after = crate::sets::orset::ORSet::<T>::join(a, b);
    crate::sets::orset::absorbed_has(a, b.everything());
    assert forall|e: T, t: Tag| #[trigger] keeps_alive(after, e, t) <==> (keeps_alive(a, e, t)
        || keeps_alive(b, e, t)) && !a.removed.contains(t) && !b.removed.contains(t) by {
        merge_goes_by_tags(a, b, e, t);
    }
    assert forall|e: T| #[trigger] after.active.contains_key(e) <==> exists|t: Tag| #[trigger]
        keeps_alive(after, e, t) by {
        if after.active.contains_key(e) {
            let t = choose|t: Tag| #[trigger] after.has(e, t);
            assert(keeps_alive(after, e, t));
        }
    }
}

/// What a delta brings: of each pixel and cursor the later write, the adds and tombstones of users
/// and colors, of each node the greater counts and times, and the removals. It drops no cursor.
pub proof fn delta_field_by_field(a: Canvas, change: Change)
    ensures
        ({
            let after = a.changed(change);
            &&& has_later_writes(a.pixels, change.pixels, after.pixels)
            &&& has_later_writes(a.cursors, change.cursors, after.cursors)
            &&& has_taken_in(a.users, change.users, after.users)
            &&& has_taken_in(a.palette, change.palette, after.palette)
            &&& has_greater_counts(a.paint_counts, change.paint_counts, after.paint_counts)
            &&& has_greater_counts(a.clock, change.clock, after.clock)
            &&& has_greater_counts(a.paint_times, change.paint_times, after.paint_times)
            &&& forall|r: Removal| #[trigger]
                after.user_removals.contains(r) <==> a.user_removals.contains(r)
                    || change.user_removals.contains(r)
            &&& forall|r: Removal| #[trigger]
                after.palette_removals.contains(r) <==> a.palette_removals.contains(r)
                    || change.palette_removals.contains(r)
        }),
{
    taken_in(a.users, change.users);
    taken_in(a.palette, change.palette);
}

/// `after` has the tags that were active or are added, and are removed neither before nor by the
/// delta; and the tombstones of both.
pub open spec fn has_taken_in<T>(
    before: Tagged<T>,
    delta: TaggedDelta<T>,
    after: Tagged<T>,
) -> bool {
    &&& forall|e: T, t: Tag| #[trigger]
        keeps_alive(after, e, t) <==> (keeps_alive(before, e, t) || delta.adds.contains((e, t)))
            && !before.removed.contains(t) && !delta.removed.contains(t)
    &&& forall|e: T| #[trigger]
        after.active.contains_key(e) <==> exists|t: Tag| #[trigger] keeps_alive(after, e, t)
    &&& forall|t: Tag| #[trigger]
        after.removed.contains(t) <==> before.removed.contains(t) || delta.removed.contains(t)
}

proof fn taken_in<T>(before: Tagged<T>, delta: TaggedDelta<T>)
    ensures
        has_taken_in(before, delta, before.absorbed(delta)),
{
    let after = before.absorbed(delta);
    crate::sets::orset::absorbed_has(before, delta);
    assert forall|e: T, t: Tag| #[trigger] keeps_alive(after, e, t) <==> (keeps_alive(before, e, t)
        || delta.adds.contains((e, t))) && !before.removed.contains(t) && !delta.removed.contains(
        t,
    ) by {
        delta_goes_by_tags(before, delta, e, t);
    }
    assert forall|e: T| #[trigger] after.active.contains_key(e) <==> exists|t: Tag| #[trigger]
        keeps_alive(after, e, t) by {
        if after.active.contains_key(e) {
            let t = choose|t: Tag| #[trigger] after.has(e, t);
            assert(keeps_alive(after, e, t));
        }
    }
}

/// The stamp of a node and a time is beyond the version.
pub open spec fn is_new(since: Map<NodeId, u64>, node: NodeId, time: u64) -> bool {
    time > if since.contains_key(node) {
        since[node]
    } else {
        0
    }
}

/// What a delta since a version holds: the pixels and cursors that were written, the adds, the
/// removals and the tombstones that were made, the counts and times of the nodes that painted, and
/// the components of the clock that advanced, each as the canvas has it, where it is newer than the
/// version; and nothing else.
pub proof fn delta_is_what_is_newer(
    canvas: Canvas,
    since: Map<NodeId, u64>,
    coord: PixelCoord,
    user: NodeId,
    color: Rgba,
    tag: Tag,
    removal: Removal,
    node: NodeId,
)
    ensures
        ({
            let d = canvas.change_since(since);
            &&& d.pixels.contains_key(coord) <==> canvas.pixels.contains_key(coord) && is_new(
                since,
                canvas.pixels[coord].node_id,
                canvas.pixels[coord].timestamp,
            )
            &&& d.pixels.contains_key(coord) ==> d.pixels[coord] == canvas.pixels[coord]
            &&& d.cursors.contains_key(user) <==> canvas.cursors.contains_key(user) && is_new(
                since,
                canvas.cursors[user].node_id,
                canvas.cursors[user].timestamp,
            )
            &&& d.cursors.contains_key(user) ==> d.cursors[user] == canvas.cursors[user]
            &&& d.users.adds.contains((user, tag)) <==> keeps_alive(canvas.users, user, tag)
                && is_new(since, tag.0, tag.1)
            &&& d.palette.adds.contains((color, tag)) <==> keeps_alive(canvas.palette, color, tag)
                && is_new(since, tag.0, tag.1)
            &&& d.user_removals.contains(removal) <==> canvas.user_removals.contains(removal)
                && is_new(since, removal.1.0, removal.1.1)
            &&& d.palette_removals.contains(removal) <==> canvas.palette_removals.contains(removal)
                && is_new(since, removal.1.0, removal.1.1)
            &&& d.users.removed.contains(tag) <==> canvas.users.removed.contains(tag) && exists|
                stamp: Tag,
            | #[trigger] canvas.user_removals.contains((tag, stamp)) && is_new(
                since,
                stamp.0,
                stamp.1,
            )
            &&& d.palette.removed.contains(tag) <==> canvas.palette.removed.contains(tag)
                && exists|stamp: Tag| #[trigger]
                canvas.palette_removals.contains((tag, stamp)) && is_new(since, stamp.0, stamp.1)
            &&& d.clock.contains_key(node) <==> canvas.clock.contains_key(node) && is_new(
                since,
                node,
                canvas.clock[node],
            )
            &&& d.clock.contains_key(node) ==> d.clock[node] == canvas.clock[node]
            &&& d.paint_times.contains_key(node) <==> canvas.paint_times.contains_key(node)
                && is_new(since, node, canvas.paint_times[node])
            &&& d.paint_times.contains_key(node) ==> d.paint_times[node]
                == canvas.paint_times[node]
            &&& d.paint_counts.contains_key(node) <==> canvas.paint_counts.contains_key(node)
                && canvas.paint_times.contains_key(node) && is_new(
                since,
                node,
                canvas.paint_times[node],
            )
            &&& d.paint_counts.contains_key(node) ==> d.paint_counts[node]
                == canvas.paint_counts[node]
        }),
{
    tombstones_of_new_removals(canvas.users, canvas.user_removals, since, tag);
    tombstones_of_new_removals(canvas.palette, canvas.palette_removals, since, tag);
}

proof fn tombstones_of_new_removals<T>(
    set: Tagged<T>,
    removals: Set<Removal>,
    since: Map<NodeId, u64>,
    tag: Tag,
)
    ensures
        super::removals::part_since(set, removals, since).removed.contains(tag)
            <==> set.removed.contains(tag) && exists|stamp: Tag| #[trigger]
            removals.contains((tag, stamp)) && is_new(since, stamp.0, stamp.1),
{
    let new = super::removals::removals_beyond(removals, since);
    if super::removals::part_since(set, removals, since).removed.contains(tag) {
        let stamp = choose|stamp: Tag| #[trigger] new.contains((tag, stamp));
        assert(removals.contains((tag, stamp)));
    }
    if exists|stamp: Tag| #[trigger]
        removals.contains((tag, stamp)) && is_new(since, stamp.0, stamp.1) {
        let stamp = choose|stamp: Tag| #[trigger]
            removals.contains((tag, stamp)) && is_new(since, stamp.0, stamp.1);
        assert(new.contains((tag, stamp)));
    }
}

/// A canvas is part of another where each of its fields is: every write is there or a later one,
/// every tag, tombstone and removal is there, and every count and time is reached.
pub proof fn inclusion_field_by_field(a: Canvas, b: Canvas)
    ensures
        CanvasDocument::below(a, b) <==> {
            &&& crate::counts::dominates(b.clock, a.clock)
            &&& crate::counts::dominates(b.paint_counts, a.paint_counts)
            &&& crate::counts::dominates(b.paint_times, a.paint_times)
            &&& crate::maps::lww_map::registers_below(a.pixels, b.pixels)
            &&& crate::maps::lww_map::registers_below(a.cursors, b.cursors)
            &&& crate::sets::orset::ORSet::<NodeId>::below(a.users, b.users)
            &&& crate::sets::orset::ORSet::<Rgba>::below(a.palette, b.palette)
            &&& forall|r: Removal| #[trigger]
                a.user_removals.contains(r) ==> b.user_removals.contains(r)
            &&& forall|r: Removal| #[trigger]
                a.palette_removals.contains(r) ==> b.palette_removals.contains(r)
        },
{
}

/// Every document is lawful and readable. It merges and has versions and deltas as said above, and
/// its version is its clock. A delta is empty exactly where all that it could bring is missing.
pub proof fn document_is_lawful(
    a: Canvas,
    b: Canvas,
    since: Map<NodeId, u64>,
    change: Change,
    doc: CanvasDocument,
)
    ensures
        CanvasDocument::lawful(),
        CanvasDocument::readable(a),
        CanvasDocument::is_versioned(a),
        CanvasDocument::reads(a, doc) <==> doc@ == a,
        CanvasDocument::join(a, b) == a.merged(b),
        CanvasDocument::absorb(a, change) == a.changed(change),
        CanvasDocument::delta_of(a, since) == a.change_since(since),
        CanvasDocument::version_of(a) == a.clock,
        CanvasDocument::covers(a.clock, since) <==> crate::counts::dominates(a.clock, since),
        CanvasDocument::vacuous(change) <==> {
            &&& change.clock.is_empty()
            &&& change.pixels.is_empty()
            &&& change.cursors.is_empty()
            &&& change.users.adds.is_empty()
            &&& change.users.removed.is_empty()
            &&& change.palette.adds.is_empty()
            &&& change.palette.removed.is_empty()
            &&& change.paint_counts.is_empty()
            &&& change.paint_times.is_empty()
            &&& change.user_removals.is_empty()
            &&& change.palette_removals.is_empty()
        },
        CanvasDocument::agree(a, b) <==> crate::maps::lww_map::registers_agree(a.pixels, b.pixels)
            && crate::maps::lww_map::registers_agree(a.cursors, b.cursors),
{
}

/// The user was active on a side, and is not on the merge.
pub open spec fn goes_inactive(a: Canvas, b: Canvas, user: NodeId) -> bool {
    (a.users.active.contains_key(user) || b.users.active.contains_key(user)) && !a.merged(
        b,
    ).users.active.contains_key(user)
}

/// What stands in the way of the laws of merging: an active tag that the other side has removed, and
/// a cursor of a user who goes inactive; and nothing else.
pub proof fn what_merging_depends_on(a: Canvas, b: Canvas, c: Canvas)
    ensures
        CanvasDocument::adds_only(a, b) <==> forall|user: NodeId| #[trigger]
            goes_inactive(a, b, user) ==> !a.cursors.contains_key(user)
                && !b.cursors.contains_key(user),
        CanvasDocument::survives(a, b) <==> {
            &&& crate::sets::orset::ORSet::<NodeId>::survives(a.users, b.users)
            &&& crate::sets::orset::ORSet::<Rgba>::survives(a.palette, b.palette)
            &&& forall|user: NodeId| #[trigger]
                goes_inactive(a, b, user) ==> !a.cursors.contains_key(user)
        },
        CanvasDocument::regroupable(a, b, c) <==> forall|user: NodeId|
            #![trigger goes_inactive(a, b, user)]
            #![trigger goes_inactive(b, c, user)]
            goes_inactive(a, b, user) || goes_inactive(b, c, user) ==> !a.cursors.contains_key(user)
                && !b.cursors.contains_key(user) && !c.cursors.contains_key(user),
        CanvasDocument::same(a, b) <==> {
            &&& a.pixels == b.pixels
            &&& a.users == b.users
            &&& a.cursors == b.cursors
            &&& a.palette == b.palette
            &&& crate::counts::same_counts(a.paint_counts, b.paint_counts)
            &&& crate::counts::same_counts(a.clock, b.clock)
            &&& a.user_removals == b.user_removals
            &&& a.palette_removals == b.palette_removals
            &&& crate::counts::same_counts(a.paint_times, b.paint_times)
        },
{
    assert forall|user: NodeId| a.departures(b).contains(user) <==> #[trigger] goes_inactive(
        a,
        b,
        user,
    ) by {}
    assert forall|user: NodeId| b.departures(c).contains(user) <==> #[trigger] goes_inactive(
        b,
        c,
        user,
    ) by {}
    if forall|user: NodeId| #[trigger]
        goes_inactive(a, b, user) ==> !a.cursors.contains_key(user) {
        assert forall|user: NodeId| #[trigger] a.departures(b).contains(user) implies
            !a.cursors.contains_key(user) by {
            assert(goes_inactive(a, b, user));
        }
    }
    if forall|user: NodeId| #[trigger]
        goes_inactive(a, b, user) ==> !b.cursors.contains_key(user) {
        assert forall|user: NodeId| #[trigger] a.departures(b).contains(user) implies
            !b.cursors.contains_key(user) by {
            assert(goes_inactive(a, b, user));
        }
    }
    let gone = a.departures(b).union(b.departures(c));
    assert forall|user: NodeId| #[trigger] gone.contains(user) <==> goes_inactive(a, b, user)
        || goes_inactive(b, c, user) by {}
    if forall|user: NodeId|
        #![trigger goes_inactive(a, b, user)]
        #![trigger goes_inactive(b, c, user)]
        goes_inactive(a, b, user) || goes_inactive(b, c, user) ==> !a.cursors.contains_key(user)
            && !b.cursors.contains_key(user) && !c.cursors.contains_key(user) {
        assert forall|user: NodeId| #[trigger] gone.contains(user) implies !a.cursors.contains_key(
            user,
        ) && !b.cursors.contains_key(user) && !c.cursors.contains_key(user) by {
            assert(goes_inactive(a, b, user) || goes_inactive(b, c, user));
        }
    }
    if CanvasDocument::regroupable(a, b, c) {
        assert forall|user: NodeId|
            #![trigger goes_inactive(a, b, user)]
            #![trigger goes_inactive(b, c, user)]
            goes_inactive(a, b, user) || goes_inactive(b, c, user) implies !a.cursors.contains_key(
            user,
        ) && !b.cursors.contains_key(user) && !c.cursors.contains_key(user) by {
            assert(gone.contains(user));
        }
    }
}

} // verus!

//! What holds of every canvas of a mesh, and of every two, however the nodes gossip.
use super::document::{Canvas, CanvasDocument, PixelCoord};
use super::laws::{has_room, tags_unshared, updated, Update};
use super::mesh::{Holder, Mesh, Step};
use crate::registers::LWWRegister;
use crate::sets::orset::{Tag, Tagged, TaggedDelta};
use crate::traits::{Crdt, DeltaCrdt};
use crate::NodeId;
use vstd::prelude::*;

verus! {

/// A tag that is active on both sides is active for the same element.
pub open spec fn tags_match<T>(a: Tagged<T>, b: Tagged<T>) -> bool {
    forall|x: T, y: T, tag: Tag|
        #![trigger a.has(x, tag), b.has(y, tag)]
        a.has(x, tag) && b.has(y, tag) ==> x == y
}

/// The tags of the two canvases match, and their registers agree.
pub open spec fn match_up(a: Canvas, b: Canvas) -> bool {
    &&& tags_match(a.users, b.users)
    &&& tags_match(a.palette, b.palette)
    &&& CanvasDocument::agree(a, b)
}

impl Mesh {
    /// The invariant: every canvas is valid, and every two match up.
    pub open spec fn canvases_valid(self) -> bool {
        &&& forall|a: Holder, b: Holder|
            #![trigger self.has(a), self.has(b)]
            self.has(a) && self.has(b) ==> match_up(self.canvas(a), self.canvas(b))
        &&& forall|a: Holder| #[trigger] self.has(a) ==> CanvasDocument::valid(self.canvas(a))
    }
}

proof fn match_up_is_mutual(a: Canvas, b: Canvas)
    requires
        match_up(a, b),
    ensures
        match_up(b, a),
{
}

/// A set matches after a removal what it matched before.
proof fn removal_keeps_match<T>(a: Tagged<T>, b: Tagged<T>, element: T)
    requires
        tags_match(a, b),
    ensures
        tags_match(a.without(element), b),
{
    let less = a.without(element);
    assert forall|x: T, y: T, t: Tag|
        #![trigger less.has(x, t), b.has(y, t)]
        less.has(x, t) && b.has(y, t) implies x == y by {
        assert(a.has(x, t));
    }
}

/// What a node writes is from a time that no other canvas has seen of it.
proof fn update_keeps_match_up(a: Canvas, b: Canvas, update: Update, node: NodeId)
    requires
        match_up(a, b),
        CanvasDocument::valid(b),
        has_room(a, node),
        crate::counts::count(b.clock, node) <= crate::counts::count(a.clock, node),
    ensures
        match_up(updated(a, update, node), b),
{
    let after = updated(a, update, node);
    let tag = (node, a.next_time());
    super::laws::next_time_is_fresh(a, node);
    assert(crate::counts::count(a.clock, node) < a.next_time());
    match update {
        Update::AddUser(user) => {
            fresh_add_keeps_match(a.users, b.users, b.clock, user, tag);
        },
        Update::RemoveUser(user) => {
            removal_keeps_match(a.users, b.users, user);
        },
        Update::AddColor(color) => {
            fresh_add_keeps_match(a.palette, b.palette, b.clock, color, tag);
        },
        Update::RemoveColor(color) => {
            removal_keeps_match(a.palette, b.palette, color);
        },
        _ => {},
    }
    assert forall|coord: PixelCoord| #[trigger]
        after.pixels.contains_key(coord) && b.pixels.contains_key(coord) implies LWWRegister::agree(
        after.pixels[coord],
        b.pixels[coord],
    ) by {
        assert(b.pixels[coord].timestamp <= crate::counts::count(
            b.clock,
            b.pixels[coord].node_id,
        ));
    }
    assert forall|user: NodeId| #[trigger]
        after.cursors.contains_key(user) && b.cursors.contains_key(user) implies LWWRegister::agree(
        after.cursors[user],
        b.cursors[user],
    ) by {
        assert(b.cursors[user].timestamp <= crate::counts::count(
            b.clock,
            b.cursors[user].node_id,
        ));
    }
}

/// The tag of an add is from a time that the other side has not seen.
proof fn fresh_add_keeps_match<T>(
    a: Tagged<T>,
    b: Tagged<T>,
    clock: Map<NodeId, u64>,
    element: T,
    tag: Tag,
)
    requires
        tags_match(a, b),
        super::removals::active_within(b, clock),
        tag.1 > crate::counts::count(clock, tag.0),
    ensures
        tags_match(a.inserted(element, tag), b),
{
    let more = a.inserted(element, tag);
    assert forall|x: T, y: T, t: Tag|
        #![trigger more.has(x, t), b.has(y, t)]
        more.has(x, t) && b.has(y, t) implies x == y by {
        assert(t != tag);
        assert(a.has(x, t));
    }
}

/// A set with some of another's adds matches what the two match.
proof fn absorbed_keeps_match<T>(a: Tagged<T>, c: Tagged<T>, part: TaggedDelta<T>, b: Tagged<T>)
    requires
        tags_match(a, b),
        tags_match(c, b),
        forall|add: (T, Tag)| #[trigger] part.adds.contains(add) ==> c.has(add.0, add.1),
    ensures
        tags_match(a.absorbed(part), b),
{
    let after = a.absorbed(part);
    crate::sets::orset::absorbed_has(a, part);
    assert forall|x: T, y: T, tag: Tag|
        #![trigger after.has(x, tag), b.has(y, tag)]
        after.has(x, tag) && b.has(y, tag) implies x == y by {
        if !a.has(x, tag) {
            assert(part.adds.contains((x, tag)));
            assert(c.has(x, tag));
        }
    }
}

/// What two canvases match, their merge matches, and one with what changed in the other.
proof fn taking_in_keeps_match_up(a: Canvas, c: Canvas, since: Map<NodeId, u64>, b: Canvas)
    requires
        match_up(a, b),
        match_up(c, b),
    ensures
        match_up(a.merged(c), b),
        match_up(a.changed(c.change_since(since)), b),
{
    let change = c.change_since(since);
    absorbed_keeps_match(a.users, c.users, c.users.everything(), b.users);
    absorbed_keeps_match(a.palette, c.palette, c.palette.everything(), b.palette);
    absorbed_keeps_match(a.users, c.users, change.users, b.users);
    absorbed_keeps_match(a.palette, c.palette, change.palette, b.palette);
}

/// The same of the result and itself.
proof fn taking_in_matches_itself(a: Canvas, c: Canvas, since: Map<NodeId, u64>)
    requires
        match_up(a, a),
        match_up(a, c),
        match_up(c, a),
        match_up(c, c),
    ensures
        match_up(a.merged(c), a.merged(c)),
        match_up(a.changed(c.change_since(since)), a.changed(c.change_since(since))),
{
    let merged = a.merged(c);
    let changed = a.changed(c.change_since(since));
    taking_in_keeps_match_up(a, c, since, a);
    taking_in_keeps_match_up(a, c, since, c);
    match_up_is_mutual(merged, a);
    match_up_is_mutual(merged, c);
    match_up_is_mutual(changed, a);
    match_up_is_mutual(changed, c);
    taking_in_keeps_match_up(a, c, since, merged);
    taking_in_keeps_match_up(a, c, since, changed);
}

/// A canvas whose tags are unshared matches itself.
proof fn unshared_matches_itself(a: Canvas)
    ensures
        match_up(a, a) <==> tags_unshared(a.users) && tags_unshared(a.palette),
{
}

/// Every two canvases still match up after a step.
proof fn step_keeps_match_up(mesh: Mesh, step: Step, a: Holder, b: Holder)
    requires
        mesh.is_consistent(),
        mesh.canvases_valid(),
        mesh.allows(step),
        mesh.after(step).has(a),
        mesh.after(step).has(b),
    ensures
        match_up(mesh.after(step).canvas(a), mesh.after(step).canvas(b)),
{
    let after = mesh.after(step);
    match step {
        Step::Change(node, update) => {
            let me = Holder::Node(node);
            let mine = mesh.canvas(me);
            assert(mesh.has(a) && mesh.has(b) && mesh.has(me));
            if a == me && b == me {
                unshared_matches_itself(mine);
                super::laws::update_keeps_valid(mine, update, node);
                unshared_matches_itself(after.canvas(me));
            } else if a == me {
                update_keeps_match_up(mine, mesh.canvas(b), update, node);
            } else if b == me {
                update_keeps_match_up(mine, mesh.canvas(a), update, node);
                match_up_is_mutual(after.canvas(me), after.canvas(a));
            }
        },
        Step::Send(node, message) => {
            let me = Holder::Node(node);
            let letter = Holder::Message(message);
            let x = if a == letter {
                me
            } else {
                a
            };
            let y = if b == letter {
                me
            } else {
                b
            };
            assert(mesh.has(x) && mesh.has(y));
        },
        Step::Merge(node, message) => {
            taken_in_keeps_match_up(mesh, node, message, Map::empty(), a, b);
        },
        Step::Apply(node, message, since) => {
            taken_in_keeps_match_up(mesh, node, message, since, a, b);
        },
    }
}

/// Every two canvases still match up after a node has taken in a message.
proof fn taken_in_keeps_match_up(
    mesh: Mesh,
    node: NodeId,
    message: nat,
    since: Map<NodeId, u64>,
    a: Holder,
    b: Holder,
)
    requires
        mesh.canvases_valid(),
        mesh.has(Holder::Node(node)),
        mesh.has(Holder::Message(message)),
        mesh.has(a),
        mesh.has(b),
    ensures
        ({
            let after = mesh.after(Step::Merge(node, message));
            match_up(after.canvas(a), after.canvas(b))
        }),
        ({
            let after = mesh.after(Step::Apply(node, message, since));
            match_up(after.canvas(a), after.canvas(b))
        }),
{
    let me = Holder::Node(node);
    let letter = Holder::Message(message);
    let mine = mesh.canvas(me);
    let theirs = mesh.canvas(letter);
    if a == me && b == me {
        taking_in_matches_itself(mine, theirs, since);
    } else if a == me {
        taking_in_keeps_match_up(mine, theirs, since, mesh.canvas(b));
    } else if b == me {
        taking_in_keeps_match_up(mine, theirs, since, mesh.canvas(a));
        match_up_is_mutual(mine.merged(theirs), mesh.canvas(a));
        match_up_is_mutual(mine.changed(theirs.change_since(since)), mesh.canvas(a));
    }
}

/// Every canvas is still valid after a step.
proof fn step_keeps_canvas_valid(mesh: Mesh, step: Step, a: Holder)
    requires
        mesh.is_consistent(),
        mesh.canvases_valid(),
        mesh.allows(step),
        mesh.after(step).has(a),
    ensures
        CanvasDocument::valid(mesh.after(step).canvas(a)),
{
    match step {
        Step::Change(node, update) => {
            let me = Holder::Node(node);
            assert(mesh.has(a) && mesh.has(me));
            unshared_matches_itself(mesh.canvas(me));
            super::laws::update_keeps_valid(mesh.canvas(me), update, node);
        },
        Step::Send(node, message) => {
            assert(mesh.has(Holder::Node(node)));
            assert(a != Holder::Message(message) ==> mesh.has(a));
        },
        Step::Merge(node, message) => {
            let me = Holder::Node(node);
            let letter = Holder::Message(message);
            assert(mesh.has(a) && mesh.has(me) && mesh.has(letter));
            CanvasDocument::merge_keeps_valid(mesh.canvas(me), mesh.canvas(letter));
        },
        Step::Apply(node, message, since) => {
            let me = Holder::Node(node);
            let letter = Holder::Message(message);
            assert(mesh.has(a) && mesh.has(me) && mesh.has(letter));
            CanvasDocument::delta_of_is_valid(mesh.canvas(letter), since);
            CanvasDocument::delta_keeps_valid(
                mesh.canvas(me),
                mesh.canvas(letter).change_since(since),
            );
        },
    }
}

/// The canvases of a mesh stay valid and match up, whatever happens in it.
pub proof fn mesh_stays_valid(mesh: Mesh, steps: Seq<Step>)
    requires
        mesh.is_new(),
        mesh.allows_all(steps),
    ensures
        mesh.after_all(steps).canvases_valid(),
    decreases steps.len(),
{
    let now = mesh.after_all(steps);
    if steps.len() > 0 {
        let before = mesh.after_all(steps.drop_last());
        mesh_stays_valid(mesh, steps.drop_last());
        super::mesh::mesh_stays_consistent(mesh, steps.drop_last());
        assert forall|a: Holder, b: Holder|
            #![trigger now.has(a), now.has(b)]
            now.has(a) && now.has(b) implies match_up(now.canvas(a), now.canvas(b)) by {
            step_keeps_match_up(before, steps.last(), a, b);
        }
        assert forall|a: Holder| #[trigger] now.has(a) implies CanvasDocument::valid(
            now.canvas(a),
        ) by {
            step_keeps_canvas_valid(before, steps.last(), a);
        }
    } else {
        super::laws::blank_is_valid();
    }
}

/// Every canvas of a mesh is valid, and no tag on it is active for two users or two colors,
/// whatever has happened in the mesh.
pub proof fn mesh_canvases_are_valid(mesh: Mesh, steps: Seq<Step>, holder: Holder)
    requires
        mesh.is_new(),
        mesh.allows_all(steps),
        mesh.after_all(steps).has(holder),
    ensures
        CanvasDocument::valid(mesh.after_all(steps).canvas(holder)),
        tags_unshared(mesh.after_all(steps).canvas(holder).users),
        tags_unshared(mesh.after_all(steps).canvas(holder).palette),
{
    mesh_stays_valid(mesh, steps);
    unshared_matches_itself(mesh.after_all(steps).canvas(holder));
}

/// Every two canvases of a mesh agree, whatever has happened in it: a pixel or a cursor that was
/// written at the same time by the same node has the same value on both.
pub proof fn mesh_canvases_agree(mesh: Mesh, steps: Seq<Step>, a: Holder, b: Holder)
    requires
        mesh.is_new(),
        mesh.allows_all(steps),
        mesh.after_all(steps).has(a),
        mesh.after_all(steps).has(b),
    ensures
        CanvasDocument::agree(mesh.after_all(steps).canvas(a), mesh.after_all(steps).canvas(b)),
{
    mesh_stays_valid(mesh, steps);
}

} // verus!

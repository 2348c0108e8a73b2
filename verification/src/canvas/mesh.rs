//! What holds of the pixels of all the nodes of a mesh, however they gossip.
//!
//! A delta carries only what the receiver's version does not cover. Nothing in the delta itself
//! says that the receiver has what its version covers; that it has is a property of the whole
//! mesh, which the steps of every node keep.
use super::document::{registers_bridged, stamped_within, Canvas, CanvasDocument, PixelCoord, Rgba};
use super::laws::{has_room, updated, Update};
use crate::registers::LWWRegister;
use crate::traits::{Crdt, DeltaCrdt};
use crate::NodeId;
use vstd::prelude::*;

verus! {

/// Who holds a canvas: a node, or a message that is under way.
pub enum Holder {
    Node(NodeId),
    Message(nat),
}

/// The canvases of all nodes, and of all messages that were ever sent.
pub struct Mesh {
    pub canvases: Map<Holder, Canvas>,
}

/// What can happen in a mesh.
pub enum Step {
    /// A node changes its canvas.
    Change(NodeId, Update),
    /// A node sends its canvas. It arrives once, several times or never.
    Send(NodeId, nat),
    /// A node merges the canvas of a message.
    Merge(NodeId, nat),
    /// A node applies what the canvas of a message has beyond a version that its own includes.
    Apply(NodeId, nat, Map<NodeId, u64>),
}

impl Mesh {
    /// Whoever is in the mesh.
    pub open spec fn has(self, holder: Holder) -> bool {
        self.canvases.contains_key(holder)
    }

    /// The canvas of a holder.
    pub open spec fn canvas(self, holder: Holder) -> Canvas {
        self.canvases[holder]
    }

    /// The nodes with their empty canvases, before anything has happened.
    pub open spec fn is_new(self) -> bool {
        forall|holder: Holder| #[trigger]
            self.has(holder) ==> holder is Node && self.canvas(holder) == super::document::blank()
    }

    /// The step can be taken.
    pub open spec fn allows(self, step: Step) -> bool {
        match step {
            Step::Change(node, update) => self.has(Holder::Node(node)) && has_room(
                self.canvas(Holder::Node(node)),
                node,
            ),
            Step::Send(node, message) => self.has(Holder::Node(node)) && !self.has(
                Holder::Message(message),
            ),
            Step::Merge(node, message) => self.has(Holder::Node(node)) && self.has(
                Holder::Message(message),
            ),
            Step::Apply(node, message, since) => self.has(Holder::Node(node)) && self.has(
                Holder::Message(message),
            ) && CanvasDocument::covers(self.canvas(Holder::Node(node)).clock, since),
        }
    }

    /// The mesh after a step.
    pub open spec fn after(self, step: Step) -> Mesh {
        match step {
            Step::Change(node, update) => self.with(
                Holder::Node(node),
                updated(self.canvas(Holder::Node(node)), update, node),
            ),
            Step::Send(node, message) => self.with(
                Holder::Message(message),
                self.canvas(Holder::Node(node)),
            ),
            Step::Merge(node, message) => self.with(
                Holder::Node(node),
                self.canvas(Holder::Node(node)).merged(self.canvas(Holder::Message(message))),
            ),
            Step::Apply(node, message, since) => self.with(
                Holder::Node(node),
                self.canvas(Holder::Node(node)).changed(
                    self.canvas(Holder::Message(message)).change_since(since),
                ),
            ),
        }
    }

    /// The mesh with the canvas of one holder replaced.
    pub open spec fn with(self, holder: Holder, canvas: Canvas) -> Mesh {
        Mesh { canvases: self.canvases.insert(holder, canvas) }
    }

    /// The mesh after a run of steps.
    pub open spec fn after_all(self, steps: Seq<Step>) -> Mesh
        decreases steps.len(),
    {
        if steps.len() == 0 {
            self
        } else {
            self.after_all(steps.drop_last()).after(steps.last())
        }
    }

    /// Each step of the run can be taken where it is.
    pub open spec fn allows_all(self, steps: Seq<Step>) -> bool
        decreases steps.len(),
    {
        steps.len() > 0 ==> self.allows_all(steps.drop_last()) && self.after_all(
            steps.drop_last(),
        ).allows(steps.last())
    }

    /// The invariant: every canvas has the pixels of every other canvas that its clock covers;
    /// no canvas has seen more of a node than the node itself; and no pixel is from a time that
    /// its canvas has not seen.
    pub open spec fn is_consistent(self) -> bool {
        &&& forall|a: Holder, b: Holder|
            #![trigger self.has(a), self.has(b)]
            self.has(a) && self.has(b) ==> has_covered_pixels(self.canvas(b), self.canvas(a))
        &&& forall|node: NodeId, a: Holder|
            #![trigger self.has(Holder::Node(node)), self.has(a)]
            self.has(Holder::Node(node)) && self.has(a) ==> crate::counts::count(
                self.canvas(a).clock,
                node,
            ) <= crate::counts::count(self.canvas(Holder::Node(node)).clock, node)
        &&& forall|a: Holder| #[trigger]
            self.has(a) ==> stamped_within(self.canvas(a).pixels, self.canvas(a).clock)
    }
}

/// `a` has the pixels of `b` that the clock of `a` covers, or later writes.
pub open spec fn has_covered_pixels(a: Canvas, b: Canvas) -> bool {
    registers_bridged(b.pixels, a.clock, a.pixels)
}

/// A canvas that has another's pixels that its clock covers still has after a merge with a third
/// one that has, too.
proof fn merge_keeps_covered(a: Canvas, c: Canvas, b: Canvas)
    requires
        has_covered_pixels(a, b),
        has_covered_pixels(c, b),
    ensures
        has_covered_pixels(a.merged(c), b),
{
    let after = a.merged(c);
    assert forall|coord: PixelCoord| #[trigger]
        b.pixels.contains_key(coord) && b.pixels[coord].timestamp <= crate::counts::count(
            after.clock,
            b.pixels[coord].node_id,
        ) implies after.pixels.contains_key(coord) && LWWRegister::below(
        b.pixels[coord],
        after.pixels[coord],
    ) by {
        let node = b.pixels[coord].node_id;
        assert(crate::counts::count(after.clock, node) == crate::counts::count(a.clock, node)
            || crate::counts::count(after.clock, node) == crate::counts::count(c.clock, node));
    }
}

/// The same of a delta against a version that the canvas includes.
proof fn delta_keeps_covered(a: Canvas, c: Canvas, since: Map<NodeId, u64>, b: Canvas)
    requires
        has_covered_pixels(a, b),
        has_covered_pixels(c, b),
        has_covered_pixels(a, c),
        CanvasDocument::covers(a.clock, since),
    ensures
        has_covered_pixels(a.changed(c.change_since(since)), b),
{
    let delta = c.change_since(since);
    let after = a.changed(delta);
    assert forall|coord: PixelCoord| #[trigger]
        b.pixels.contains_key(coord) && b.pixels[coord].timestamp <= crate::counts::count(
            after.clock,
            b.pixels[coord].node_id,
        ) implies after.pixels.contains_key(coord) && LWWRegister::below(
        b.pixels[coord],
        after.pixels[coord],
    ) by {
        let node = b.pixels[coord].node_id;
        if b.pixels[coord].timestamp > crate::counts::count(a.clock, node) {
            assert(crate::counts::count(after.clock, node) == crate::counts::count(
                delta.clock,
                node,
            ));
            assert(b.pixels[coord].timestamp <= crate::counts::count(c.clock, node));
            assert(c.pixels.contains_key(coord));
            let theirs = c.pixels[coord];
            if !delta.pixels.contains_key(coord) {
                assert(theirs.timestamp <= crate::counts::count(since, theirs.node_id));
                assert(crate::counts::count(a.clock, theirs.node_id) >= crate::counts::count(
                    since,
                    theirs.node_id,
                ));
                assert(a.pixels.contains_key(coord));
            }
        }
    }
}

/// A canvas that has the pixels of two others that its clock covers has those of their merge, and
/// of one with what changed in the other.
proof fn covered_of_both(a: Canvas, b: Canvas, c: Canvas, since: Map<NodeId, u64>)
    requires
        has_covered_pixels(a, b),
        has_covered_pixels(a, c),
    ensures
        has_covered_pixels(a, b.merged(c)),
        has_covered_pixels(a, b.changed(c.change_since(since))),
{
    let merged = b.merged(c);
    assert forall|coord: PixelCoord| #[trigger]
        merged.pixels.contains_key(coord) && merged.pixels[coord].timestamp
            <= crate::counts::count(a.clock, merged.pixels[coord].node_id) implies
                a.pixels.contains_key(coord)
        && LWWRegister::below(merged.pixels[coord], a.pixels[coord]) by {
        assert(b.pixels.contains_key(coord) || c.pixels.contains_key(coord));
    }
    let changed = b.changed(c.change_since(since));
    assert forall|coord: PixelCoord| #[trigger]
        changed.pixels.contains_key(coord) && changed.pixels[coord].timestamp
            <= crate::counts::count(a.clock, changed.pixels[coord].node_id) implies
                a.pixels.contains_key(coord)
        && LWWRegister::below(changed.pixels[coord], a.pixels[coord]) by {
        assert(b.pixels.contains_key(coord) || c.pixels.contains_key(coord));
    }
}

/// A write by a node has a time that no other canvas has seen of it.
proof fn fresh_write_is_not_covered(a: Canvas, b: Canvas, update: Update, node: NodeId)
    requires
        has_covered_pixels(a, b),
        has_room(b, node),
        crate::counts::count(a.clock, node) <= crate::counts::count(b.clock, node),
    ensures
        has_covered_pixels(a, updated(b, update, node)),
{
    super::laws::next_time_is_fresh(b, node);
    let after = updated(b, update, node);
    assert forall|coord: PixelCoord| #[trigger]
        after.pixels.contains_key(coord) && after.pixels[coord].timestamp <= crate::counts::count(
            a.clock,
            after.pixels[coord].node_id,
        ) implies a.pixels.contains_key(coord) && LWWRegister::below(
        after.pixels[coord],
        a.pixels[coord],
    ) by {
        assert(crate::counts::count(b.clock, node) < b.next_time());
        assert(b.pixels.contains_key(coord) && after.pixels[coord] == b.pixels[coord]);
    }
}

/// An update by a node that has seen all that others have of itself covers nothing more.
proof fn update_keeps_covered(a: Canvas, b: Canvas, update: Update, node: NodeId)
    requires
        has_covered_pixels(a, b),
        has_room(a, node),
        crate::counts::count(b.clock, node) <= crate::counts::count(a.clock, node),
        stamped_within(b.pixels, b.clock),
    ensures
        has_covered_pixels(updated(a, update, node), b),
{
    let after = updated(a, update, node);
    assert forall|coord: PixelCoord| #[trigger]
        b.pixels.contains_key(coord) && b.pixels[coord].timestamp <= crate::counts::count(
            after.clock,
            b.pixels[coord].node_id,
        ) implies after.pixels.contains_key(coord) && LWWRegister::below(
        b.pixels[coord],
        after.pixels[coord],
    ) by {
        let writer = b.pixels[coord].node_id;
        assert(b.pixels[coord].timestamp <= crate::counts::count(b.clock, writer));
        assert(a.pixels.contains_key(coord));
    }
}

/// Every canvas has its own pixels.
proof fn covers_itself(a: Canvas)
    ensures
        has_covered_pixels(a, a),
{
}

/// An update keeps the pixels within the clock.
proof fn update_stays_stamped(a: Canvas, update: Update, node: NodeId)
    requires
        stamped_within(a.pixels, a.clock),
        has_room(a, node),
    ensures
        stamped_within(updated(a, update, node).pixels, updated(a, update, node).clock),
        crate::counts::dominates(updated(a, update, node).clock, a.clock),
        forall|other: NodeId|
            other != node ==> #[trigger] crate::counts::count(
                updated(a, update, node).clock,
                other,
            ) == crate::counts::count(a.clock, other),
{
    super::laws::next_time_is_fresh(a, node);
    let after = updated(a, update, node);
    assert forall|coord: PixelCoord| #[trigger] after.pixels.contains_key(coord) implies 0
        < after.pixels[coord].timestamp <= crate::counts::count(
        after.clock,
        after.pixels[coord].node_id,
    ) by {
        let writer = after.pixels[coord].node_id;
        assert(crate::counts::count(after.clock, writer) >= crate::counts::count(a.clock, writer));
        if a.pixels.contains_key(coord) {}
    }
}

/// Every step keeps the mesh consistent.
pub proof fn step_keeps_consistent(mesh: Mesh, step: Step)
    requires
        mesh.is_consistent(),
        mesh.allows(step),
    ensures
        mesh.after(step).is_consistent(),
{
    let after = mesh.after(step);
    match step {
        Step::Change(node, update) => {
            let me = Holder::Node(node);
            let mine = mesh.canvas(me);
            update_stays_stamped(mine, update, node);
            assert forall|a: Holder, b: Holder|
                #![trigger after.has(a), after.has(b)]
                after.has(a) && after.has(b) implies has_covered_pixels(
                after.canvas(b),
                after.canvas(a),
            ) by {
                assert(mesh.has(a) && mesh.has(b) && mesh.has(me));
                if a == me && b == me {
                    covers_itself(after.canvas(me));
                } else if a == me {
                    fresh_write_is_not_covered(mesh.canvas(b), mine, update, node);
                } else if b == me {
                    update_keeps_covered(mine, mesh.canvas(a), update, node);
                }
            }
            assert forall|n: NodeId, a: Holder|
                #![trigger after.has(Holder::Node(n)), after.has(a)]
                after.has(Holder::Node(n)) && after.has(a) implies crate::counts::count(
                after.canvas(a).clock,
                n,
            ) <= crate::counts::count(after.canvas(Holder::Node(n)).clock, n) by {
                assert(mesh.has(Holder::Node(n)) && mesh.has(a) && mesh.has(me));
                assert(crate::counts::count(after.canvas(me).clock, n) >= crate::counts::count(
                    mine.clock,
                    n,
                ));
            }
            assert forall|a: Holder| #[trigger] after.has(a) implies stamped_within(
                after.canvas(a).pixels,
                after.canvas(a).clock,
            ) by {
                assert(mesh.has(a));
            }
        },
        Step::Send(node, message) => {
            let me = Holder::Node(node);
            let letter = Holder::Message(message);
            assert forall|a: Holder, b: Holder|
                #![trigger after.has(a), after.has(b)]
                after.has(a) && after.has(b) implies has_covered_pixels(
                after.canvas(b),
                after.canvas(a),
            ) by {
                let x = if a == letter {
                    me
                } else {
                    a
                };
                let y = if b == letter {
                    me
                } else {
                    b
                };
                assert(mesh.has(x) && mesh.has(y));
            }
            assert forall|n: NodeId, a: Holder|
                #![trigger after.has(Holder::Node(n)), after.has(a)]
                after.has(Holder::Node(n)) && after.has(a) implies crate::counts::count(
                after.canvas(a).clock,
                n,
            ) <= crate::counts::count(after.canvas(Holder::Node(n)).clock, n) by {
                let x = if a == letter {
                    me
                } else {
                    a
                };
                assert(mesh.has(Holder::Node(n)) && mesh.has(x));
            }
            assert forall|a: Holder| #[trigger] after.has(a) implies stamped_within(
                after.canvas(a).pixels,
                after.canvas(a).clock,
            ) by {
                let x = if a == letter {
                    me
                } else {
                    a
                };
                assert(mesh.has(x));
            }
        },
        Step::Merge(node, message) => {
            let me = Holder::Node(node);
            let letter = Holder::Message(message);
            let mine = mesh.canvas(me);
            let theirs = mesh.canvas(letter);
            super::document::merged_registers_within(
                mine.pixels,
                theirs.pixels,
                mine.clock,
                theirs.clock,
            );
            assert forall|a: Holder, b: Holder|
                #![trigger after.has(a), after.has(b)]
                after.has(a) && after.has(b) implies has_covered_pixels(
                after.canvas(b),
                after.canvas(a),
            ) by {
                assert(mesh.has(a) && mesh.has(b) && mesh.has(me) && mesh.has(letter));
                if a == me && b == me {
                    covers_itself(after.canvas(me));
                } else if a == me {
                    covered_of_both(mesh.canvas(b), mine, theirs, Map::empty());
                } else if b == me {
                    merge_keeps_covered(mine, theirs, mesh.canvas(a));
                }
            }
            other_clocks_stay_behind(mesh, after, node, message);
            assert forall|a: Holder| #[trigger] after.has(a) implies stamped_within(
                after.canvas(a).pixels,
                after.canvas(a).clock,
            ) by {
                assert(mesh.has(a) && mesh.has(me) && mesh.has(letter));
            }
        },
        Step::Apply(node, message, since) => {
            let me = Holder::Node(node);
            let letter = Holder::Message(message);
            let mine = mesh.canvas(me);
            let theirs = mesh.canvas(letter);
            let delta = theirs.change_since(since);
            assert(stamped_within(delta.pixels, delta.clock)) by {
                assert(mesh.has(letter));
                assert forall|coord: PixelCoord| #[trigger] delta.pixels.contains_key(coord) implies 0
                    < delta.pixels[coord].timestamp <= crate::counts::count(
                    delta.clock,
                    delta.pixels[coord].node_id,
                ) by {
                    assert(theirs.pixels.contains_key(coord));
                }
            }
            super::document::merged_registers_within(
                mine.pixels,
                delta.pixels,
                mine.clock,
                delta.clock,
            );
            assert forall|a: Holder, b: Holder|
                #![trigger after.has(a), after.has(b)]
                after.has(a) && after.has(b) implies has_covered_pixels(
                after.canvas(b),
                after.canvas(a),
            ) by {
                assert(mesh.has(a) && mesh.has(b) && mesh.has(me) && mesh.has(letter));
                if a == me && b == me {
                    covers_itself(after.canvas(me));
                } else if a == me {
                    covered_of_both(mesh.canvas(b), mine, theirs, since);
                } else if b == me {
                    delta_keeps_covered(mine, theirs, since, mesh.canvas(a));
                }
            }
            other_clocks_stay_behind(mesh, after, node, message);
            assert forall|a: Holder| #[trigger] after.has(a) implies stamped_within(
                after.canvas(a).pixels,
                after.canvas(a).clock,
            ) by {
                assert(mesh.has(a) && mesh.has(me) && mesh.has(letter));
            }
        },
    }
}

/// A node that takes in a message learns no more of any node than that node knows.
proof fn other_clocks_stay_behind(mesh: Mesh, after: Mesh, node: NodeId, message: nat)
    requires
        mesh.is_consistent(),
        mesh.has(Holder::Node(node)),
        mesh.has(Holder::Message(message)),
        after == mesh.with(Holder::Node(node), after.canvas(Holder::Node(node))),
        forall|n: NodeId| #[trigger]
            crate::counts::count(after.canvas(Holder::Node(node)).clock, n)
                >= crate::counts::count(mesh.canvas(Holder::Node(node)).clock, n),
        forall|n: NodeId| #[trigger]
            crate::counts::count(after.canvas(Holder::Node(node)).clock, n)
                == crate::counts::count(mesh.canvas(Holder::Node(node)).clock, n)
                || crate::counts::count(after.canvas(Holder::Node(node)).clock, n)
                <= crate::counts::count(mesh.canvas(Holder::Message(message)).clock, n),
    ensures
        forall|n: NodeId, a: Holder|
            #![trigger after.has(Holder::Node(n)), after.has(a)]
            after.has(Holder::Node(n)) && after.has(a) ==> crate::counts::count(
                after.canvas(a).clock,
                n,
            ) <= crate::counts::count(after.canvas(Holder::Node(n)).clock, n),
{
    let me = Holder::Node(node);
    let letter = Holder::Message(message);
    assert forall|n: NodeId, a: Holder|
        #![trigger after.has(Holder::Node(n)), after.has(a)]
        after.has(Holder::Node(n)) && after.has(a) implies crate::counts::count(
        after.canvas(a).clock,
        n,
    ) <= crate::counts::count(after.canvas(Holder::Node(n)).clock, n) by {
        let owner = Holder::Node(n);
        assert(mesh.has(owner) && mesh.has(a) && mesh.has(letter) && mesh.has(me));
        assert(crate::counts::count(mesh.canvas(letter).clock, n) <= crate::counts::count(
            mesh.canvas(owner).clock,
            n,
        ));
        assert(crate::counts::count(mesh.canvas(me).clock, n) <= crate::counts::count(
            mesh.canvas(owner).clock,
            n,
        ));
        assert(crate::counts::count(after.canvas(me).clock, n) >= crate::counts::count(
            mesh.canvas(me).clock,
            n,
        ));
    }
}

/// A mesh stays consistent, whatever happens in it.
pub proof fn mesh_stays_consistent(mesh: Mesh, steps: Seq<Step>)
    requires
        mesh.is_new(),
        mesh.allows_all(steps),
    ensures
        mesh.after_all(steps).is_consistent(),
    decreases steps.len(),
{
    if steps.len() > 0 {
        mesh_stays_consistent(mesh, steps.drop_last());
        step_keeps_consistent(mesh.after_all(steps.drop_last()), steps.last());
    }
}

/// Delta gossip loses no pixel: whatever has happened in a mesh, a node that applies the delta of
/// a message against any version that its own version includes has every pixel of the sender, or
/// a later write.
pub proof fn delta_gossip_loses_no_pixel(
    mesh: Mesh,
    steps: Seq<Step>,
    node: NodeId,
    message: nat,
    since: Map<NodeId, u64>,
)
    requires
        mesh.is_new(),
        mesh.allows_all(steps),
        mesh.after_all(steps).allows(Step::Apply(node, message, since)),
    ensures
        crate::maps::lww_map::registers_below(
            mesh.after_all(steps).canvas(Holder::Message(message)).pixels,
            mesh.after_all(steps).after(Step::Apply(node, message, since)).canvas(
                Holder::Node(node),
            ).pixels,
        ),
{
    let now = mesh.after_all(steps);
    mesh_stays_consistent(mesh, steps);
    let mine = now.canvas(Holder::Node(node));
    let theirs = now.canvas(Holder::Message(message));
    let delta = theirs.change_since(since);
    let after = mine.changed(delta);
    assert(now.has(Holder::Node(node)) && now.has(Holder::Message(message)));
    assert(has_covered_pixels(mine, theirs));
    assert forall|coord: PixelCoord| #[trigger] theirs.pixels.contains_key(coord) implies
        after.pixels.contains_key(coord)
        && LWWRegister::below(theirs.pixels[coord], after.pixels[coord]) by {
        if !delta.pixels.contains_key(coord) {
            let writer = theirs.pixels[coord].node_id;
            assert(crate::counts::count(mine.clock, writer) >= crate::counts::count(
                since,
                writer,
            ));
        }
    }
}

} // verus!

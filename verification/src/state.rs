//! Application state, the source of truth of the shared canvas.
//!
//! [`AppState`] sits between the network layer and the API layer. It holds the canvas document,
//! this node's identity and the gossip engine. Every mutation, whether from a local browser or a
//! remote gossip merge, flows through here.
//!
//! There is no standalone timestamp counter: timestamps live on the [`CanvasDocument`]'s own
//! vector clock, which is part of the replicated state.
use crate::canvas::document::{Canvas, CanvasDocument};
use crate::collections::set_elements;
use crate::net::addr::SocketAddress;
use crate::net::engine::GossipEngine;
use crate::net::message::GossipMessage;
use crate::traits::{Crdt, DeltaCrdt};
use crate::NodeId;
use std::collections::BTreeSet;
use vstd::prelude::*;

verus! {

/// Shared application state.
///
/// The [`GossipEngine`] is created after the state, so it is wired in via
/// [`set_engine`](Self::set_engine).
pub struct AppState {
    pub node_id: NodeId,
    /// Single source of truth.
    pub canvas: CanvasDocument,
    /// Gossip engine, wired in after construction.
    pub engine: Option<GossipEngine<CanvasDocument>>,
    /// Count of active WebSocket browser sessions. Used to add this node to the users on the
    /// first connection and remove it on the last.
    pub ws_session_count: usize,
}

impl AppState {
    /// Everything but the canvas is the same.
    pub open spec fn same_but_canvas(self, other: AppState) -> bool {
        &&& self.node_id == other.node_id
        &&& self.engine == other.engine
        &&& self.ws_session_count == other.ws_session_count
    }

    /// The state of a node with an empty canvas.
    pub fn new(node_id: NodeId) -> (state: Self)
        ensures
            state.node_id == node_id,
            state.canvas@ == crate::canvas::document::blank(),
            state.engine is None,
            state.ws_session_count == 0,
    {
        AppState { node_id, canvas: CanvasDocument::new(), engine: None, ws_session_count: 0 }
    }

    /// Increment the WebSocket session count. Returns `true` when this is the first browser
    /// session, signalling that this node should be added to the users.
    pub fn register_ws_client(&mut self) -> (first: bool)
        ensures
            first == (old(self).ws_session_count == 0),
            final(self).ws_session_count == if old(self).ws_session_count == usize::MAX {
                0
            } else {
                (old(self).ws_session_count + 1) as usize
            },
            *final(self) == (AppState {
                ws_session_count: final(self).ws_session_count,
                ..*old(self)
            }),
    {
        let before: usize = self.ws_session_count;
        self.ws_session_count = before.wrapping_add(1);
        before == 0
    }

    /// Decrement the WebSocket session count. Returns `true` when this was the last browser
    /// session, signalling that this node should be removed from the users.
    pub fn deregister_ws_client(&mut self) -> (last: bool)
        ensures
            last == (old(self).ws_session_count == 1),
            final(self).ws_session_count == if old(self).ws_session_count == 0 {
                usize::MAX
            } else {
                (old(self).ws_session_count - 1) as usize
            },
            *final(self) == (AppState {
                ws_session_count: final(self).ws_session_count,
                ..*old(self)
            }),
    {
        let before: usize = self.ws_session_count;
        self.ws_session_count = before.wrapping_sub(1);
        before == 1
    }

    /// This node.
    pub fn node_id(&self) -> (id: NodeId)
        ensures
            id == self.node_id,
    {
        self.node_id
    }

    /// The gossip engine, if wired in.
    pub fn engine(&self) -> (engine: Option<&GossipEngine<CanvasDocument>>)
        ensures
            match engine {
                Some(engine) => self.engine == Some(*engine),
                None => self.engine is None,
            },
    {
        self.engine.as_ref()
    }

    /// Wire the gossip engine in after construction. Subsequent calls are silently ignored.
    pub fn set_engine(&mut self, engine: GossipEngine<CanvasDocument>)
        ensures
            *final(self) == if old(self).engine is None {
                AppState { engine: Some(engine), ..*old(self) }
            } else {
                *old(self)
            },
    {
        if self.engine.is_none() {
            self.engine = Some(engine);
        }
    }

    /// Add a bootstrap peer to the gossip engine at runtime. No-op if the engine hasn't been
    /// wired in yet.
    pub fn add_bootstrap(&mut self, addr: SocketAddress)
        ensures
            final(self).node_id == old(self).node_id,
            final(self).canvas == old(self).canvas,
            final(self).ws_session_count == old(self).ws_session_count,
            match old(self).engine {
                Some(engine) => {
                    &&& final(self).engine is Some
                    &&& final(self).engine->0.registry@ == engine.registry@.with_bootstrap(addr)
                    &&& final(self).engine->0.same_node(engine)
                    &&& engine.wf() ==> final(self).engine->0.wf()
                },
                None => final(self).engine is None,
            },
    {
        if let Some(engine) = &mut self.engine {
            engine.add_bootstrap(addr);
        }
    }

    /// Apply an arbitrary mutation to the canvas.
    ///
    /// The closure receives the document and this node. Timestamp handling is internal to the
    /// document. Returns whatever the closure returns.
    pub fn mutate<R, F: FnOnce(&mut CanvasDocument, NodeId) -> R>(&mut self, f: F) -> (result: R)
        requires
            forall|doc: &mut CanvasDocument|
                *doc == old(self).canvas ==> #[trigger] f.requires((doc, old(self).node_id)),
        ensures
            exists|doc: &mut CanvasDocument|
                *doc == old(self).canvas && *final(doc) == final(self).canvas
                    && #[trigger] f.ensures((doc, old(self).node_id), result),
            final(self).same_but_canvas(*old(self)),
    {
        f(&mut self.canvas, self.node_id)
    }

    /// Merge a remotely-received document into local state.
    ///
    /// The document's clock merges with it, so subsequent local writes will automatically have
    /// higher timestamps than anything observed from the remote peer.
    pub fn apply_gossip(&mut self, incoming: CanvasDocument)
        ensures
            final(self).canvas@ == old(self).canvas@.merged(incoming@),
            final(self).same_but_canvas(*old(self)),
    {
        self.canvas.merge(incoming);
    }

    /// Borrow the current canvas state.
    pub fn canvas(&self) -> (doc: &CanvasDocument)
        ensures
            *doc == self.canvas,
    {
        &self.canvas
    }

    /// Takes a message from a peer: into the registry of the engine, and what it makes of the
    /// canvas is merged into the canvas. Ignored if the engine hasn't been wired in yet.
    pub fn receive(&mut self, message: GossipMessage<CanvasDocument>)
        ensures
            final(self).node_id == old(self).node_id,
            final(self).ws_session_count == old(self).ws_session_count,
            match old(self).engine {
                None => final(self).engine is None && final(self).canvas == old(self).canvas,
                Some(engine) => {
                    &&& final(self).engine is Some
                    &&& final(self).engine->0.same_node(engine)
                    &&& engine.wf() ==> final(self).engine->0.wf()
                    &&& match message {
                        GossipMessage::Sync { from, state, known_peers, departed } => {
                            &&& final(self).engine->0.registry@ == engine.registry@.heard(
                                from,
                                known_peers@,
                                departed@,
                            )
                            &&& final(self).canvas@ == old(self).canvas@.merged(
                                old(self).canvas@.merged(state@),
                            )
                        },
                        GossipMessage::SyncDelta { from, delta, since, known_peers, departed } => {
                            if crate::counts::dominates(old(self).canvas@.clock, since@) {
                                &&& final(self).engine->0.registry@ == engine.registry@.heard(
                                    from,
                                    known_peers@,
                                    departed@,
                                )
                                &&& final(self).canvas@ == old(self).canvas@.merged(
                                    old(self).canvas@.changed(delta@),
                                )
                            } else {
                                &&& final(self).engine->0.registry@ == engine.registry@
                                &&& final(self).canvas@ == old(self).canvas@
                            }
                        },
                        GossipMessage::Goodbye { from, departed, known_peers } => {
                            &&& final(self).engine->0.registry@ == engine.registry@.bidden_farewell(
                                known_peers@,
                                departed@,
                            )
                            &&& final(self).canvas@ == old(self).canvas@
                        },
                    }
                },
            },
    {
        let local = self.canvas.clone();
        if let Some(engine) = &mut self.engine {
            if let Some(merged) = engine.receive(local, message) {
                self.apply_gossip(merged);
            }
        }
    }

    /// The active users that the engine counts among the departed.
    pub fn departed_users(&self) -> (departed: Vec<NodeId>)
        ensures
            match self.engine {
                Some(engine) => crate::collections::lists_set(
                    departed@,
                    self.canvas@.users.elements().intersect(engine.registry@.tombstones),
                ),
                None => departed@.len() == 0,
            },
    {
        let mut departed: Vec<NodeId> = Vec::new();
        if let Some(engine) = &self.engine {
            let active = self.canvas.active_users();
            let mut both: BTreeSet<NodeId> = BTreeSet::new();
            let tombstones = engine.known_tombstones();
            for i in 0..tombstones.len()
                invariant
                    active@ == self.canvas@.users.elements(),
                    forall|id: NodeId| #[trigger]
                        both@.contains(id) <==> active@.contains(id) && exists|j: int|
                            0 <= j < i && #[trigger] tombstones@[j] == id,
            {
                if active.contains(&tombstones[i]) {
                    both.insert(tombstones[i]);
                }
            }
            assert(both@ =~= self.canvas@.users.elements().intersect(engine.registry@.tombstones))
                by {
                assert forall|id: NodeId| engine.registry@.tombstones.contains(id) implies exists|
                    j: int,
                | 0 <= j < tombstones@.len() && #[trigger] tombstones@[j] == id by {}
            }
            let rows = set_elements(&both);
            let ghost listed = rows@.unref();
            for i in 0..rows.len()
                invariant
                    listed == rows@.unref(),
                    departed@ == listed.take(i as int),
            {
                departed.push(*rows[i]);
                assert(departed@ =~= listed.take(i + 1));
            }
            assert(departed@ =~= listed);
        }
        departed
    }

    /// Removes users from the canvas, one after the other.
    pub fn remove_users(&mut self, users: &Vec<NodeId>)
        requires
            crate::clocks::can_tick_times(old(self).canvas@.clock, users@.len()),
        ensures
            final(self).canvas@ == all_left(old(self).canvas@, users@, old(self).node_id),
            final(self).same_but_canvas(*old(self)),
    {
        let ghost start = self.canvas@;
        let ghost node = self.node_id;
        let ghost whole = *self;
        assert(users@.take(0) =~= Seq::empty());
        for i in 0..users.len()
            invariant
                self.canvas@ == all_left(start, users@.take(i as int), node),
                crate::clocks::can_tick_times(self.canvas@.clock, (users@.len() - i) as nat),
                self.same_but_canvas(whole),
                self.node_id == node,
        {
            let ghost before = self.canvas@;
            let time: u64 = self.canvas.clock.lamport_timestamp();
            proof {
                assert(users@.len() - i > 0);
                crate::clocks::room_bounds_latest(before.clock, time, (users@.len() - i) as nat);
                crate::clocks::tick_leaves_room(
                    before.clock,
                    node,
                    (time + 1) as u64,
                    (users@.len() - i) as nat,
                );
            }
            let id: NodeId = self.node_id;
            self.canvas.remove_user(&users[i], id);
            assert(users@.take(i + 1).drop_last() =~= users@.take(i as int));
            assert(users@.take(i + 1).last() == users@[i as int]);
        }
        assert(users@.take(users@.len() as int) =~= users@);
    }
}

/// The canvas after `node` removed the users, one after the other.
pub open spec fn all_left(canvas: Canvas, users: Seq<NodeId>, node: NodeId) -> Canvas
    decreases users.len(),
{
    if users.len() == 0 {
        canvas
    } else {
        all_left(canvas, users.drop_last(), node).left(users.last(), node)
    }
}

/// Users that were removed are not active.
pub proof fn removed_users_are_gone(canvas: Canvas, users: Seq<NodeId>, node: NodeId)
    ensures
        forall|user: NodeId| #[trigger]
            all_left(canvas, users, node).users.elements().contains(user)
                <==> canvas.users.elements().contains(user) && !users.contains(user),
    decreases users.len(),
{
    if users.len() > 0 {
        let rest = users.drop_last();
        removed_users_are_gone(canvas, rest, node);
        assert forall|user: NodeId| #[trigger] all_left(canvas, users, node).users.elements().contains(
            user,
        ) <==> canvas.users.elements().contains(user) && !users.contains(user) by {
            let before = all_left(canvas, rest, node);
            assert(before.users.elements().contains(user) <==> canvas.users.elements().contains(
                user,
            ) && !rest.contains(user));
            if rest.contains(user) {
                let i = choose|i: int| 0 <= i < rest.len() && rest[i] == user;
                assert(users[i] == user);
            }
            if users.contains(user) && user != users.last() {
                let i = choose|i: int| 0 <= i < users.len() && users[i] == user;
                assert(rest[i] == user);
            }
            assert(users[users.len() - 1] == users.last());
        }
    }
}

} // verus!

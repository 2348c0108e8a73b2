//! The gossip engine: what a node sends, and what it makes of what it receives.
use super::addr::{IpAddress, SocketAddress};
use super::config::{resolve_advertise_addr, GossipConfig};
use super::message::{GossipMessage, PeerEntry};
use super::registry::{PeerRegistry, Peers};
use crate::collections::copy_all;
use crate::traits::{Crdt, DeltaCrdt};
use crate::NodeId;
use rand::seq::IteratorRandom;
use vstd::prelude::*;

verus! {

/// Number of peers that each gossip round sends to.
pub const FANOUT: usize = 2;

/// Maximum number of peers that are told of a graceful shutdown.
pub const GOODBYE_FANOUT: usize = 4;

/// Cap on simultaneous in-flight inbound connections. Excess connections are dropped.
pub const MAX_CONCURRENT_CONNECTIONS: usize = 64;

/// The gossip engine of a node, over states of type `T`.
pub struct GossipEngine<T: DeltaCrdt> {
    pub registry: PeerRegistry<T::Version>,
    pub self_id: NodeId,
    pub local_addr: SocketAddress,
    pub advertise_addr: SocketAddress,
    pub running: bool,
}

/// A message that is to be sent.
pub struct Outgoing<T: DeltaCrdt> {
    /// Where to send it.
    pub addr: SocketAddress,
    pub message: GossipMessage<T>,
    /// The version of the state that the message brings the receiver to.
    pub version: T::Version,
}

/// Picks `amount` of the addresses at random, by `IteratorRandom::choose_multiple` of `rand` with
/// the thread's generator: as many as asked for, or all where there are fewer, and none more
/// often than it occurs in the list. Which ones, and in which order, is left to chance.
#[verifier::external_body]
fn choose_at_random(targets: Vec<SocketAddress>, amount: usize) -> (chosen: Vec<SocketAddress>)
    requires
        amount <= u16::MAX,
    ensures
        picked_from(targets@, chosen@, amount as nat),
{
    targets.into_iter().choose_multiple(&mut rand::thread_rng(), amount)
}

/// The addresses were picked out of `targets`: `amount` of them, or all where there are fewer.
pub open spec fn picked_from(
    targets: Seq<SocketAddress>,
    chosen: Seq<SocketAddress>,
    amount: nat,
) -> bool {
    &&& chosen.len() == if amount <= targets.len() {
        amount
    } else {
        targets.len()
    }
    &&& chosen.to_multiset().subset_of(targets.to_multiset())
}

/// What a message tells of the membership: the sender, the peers to tell of, and the departed.
pub open spec fn tells<T: DeltaCrdt>(
    message: GossipMessage<T>,
    from: PeerEntry,
    known: Seq<PeerEntry>,
    departed: Seq<NodeId>,
) -> bool {
    match message {
        GossipMessage::Sync { from: f, state, known_peers, departed: d } => f == from
            && known_peers@ == known && d@ == departed,
        GossipMessage::SyncDelta { from: f, delta, since, known_peers, departed: d } => f == from
            && known_peers@ == known && d@ == departed,
        GossipMessage::Goodbye { from: f, departed: d, known_peers } => f == from
            && known_peers@ == known && d@ == departed,
    }
}

/// What a message carries of the state: all of it on first contact; later what changed since the
/// version that was last sent, together with that version.
pub open spec fn carries<T: DeltaCrdt>(
    message: GossipMessage<T>,
    sent: Map<SocketAddress, T::Version>,
    addr: SocketAddress,
    state: T::V,
) -> bool {
    match message {
        GossipMessage::Sync { from, state: s, known_peers, departed } => !sent.contains_key(addr)
            && s@ == state,
        GossipMessage::SyncDelta { from, delta, since, known_peers, departed } => {
            &&& sent.contains_key(addr)
            &&& T::version_model(since) == T::version_model(sent[addr])
            &&& T::delta_model(delta) == T::delta_of(state, T::version_model(sent[addr]))
        },
        GossipMessage::Goodbye { from, departed, known_peers } => false,
    }
}

impl<V> Peers<V> {
    /// The registry after a message from `from`: the departed are absorbed first, so that the
    /// same message cannot bring them back; then the sender and its peers are added.
    pub open spec fn heard(
        self,
        from: PeerEntry,
        known: Seq<PeerEntry>,
        departed: Seq<NodeId>,
    ) -> Peers<V> {
        self.departed(departed.to_set()).with_resolved(from.node_id, from.addr).with_all_resolved(
            known,
        )
    }

    /// The registry after the farewell of a node, which tells of peers and of the departed.
    pub open spec fn bidden_farewell(
        self,
        known: Seq<PeerEntry>,
        departed: Seq<NodeId>,
    ) -> Peers<V> {
        self.departed(departed.to_set()).with_all_resolved(known)
    }
}

impl<T: DeltaCrdt> GossipEngine<T> {
    /// The invariant of an engine.
    pub open spec fn wf(self) -> bool {
        &&& self.registry@.wf()
        &&& self.registry@.self_id == self.self_id
        &&& self.registry@.self_addr == self.advertise_addr
    }

    /// Everything but the registry is the same.
    pub open spec fn same_node(self, other: Self) -> bool {
        &&& self.self_id == other.self_id
        &&& self.local_addr == other.local_addr
        &&& self.advertise_addr == other.advertise_addr
        &&& self.running == other.running
    }

    /// Starts an engine that listens at `bound`, where `local_ip` is the address of the host, as
    /// far as it is known. The configured peers are its bootstraps.
    pub fn run(config: &GossipConfig, bound: SocketAddress, local_ip: Option<IpAddress>) -> (engine:
        Self)
        ensures
            engine.wf(),
            engine.running,
            engine.self_id == config.node_id,
            engine.local_addr == bound,
            engine.advertise_addr == super::config::advertised(*config, bound, local_ip),
            engine.registry@ == Peers::<T::Version>::lonely(
                config.node_id,
                engine.advertise_addr,
            ).with_all_bootstraps(config.peers@),
    {
        let advertise_addr = resolve_advertise_addr(config, bound, local_ip);
        let mut registry = PeerRegistry::new(config.node_id, advertise_addr);
        registry.add_all_bootstraps(&config.peers);
        proof {
            bootstraps_keep_self(
                Peers::<T::Version>::lonely(config.node_id, advertise_addr),
                config.peers@,
            );
        }
        GossipEngine {
            registry,
            self_id: config.node_id,
            local_addr: bound,
            advertise_addr,
            running: true,
        }
    }

    /// The address that was bound.
    pub fn local_addr(&self) -> (addr: SocketAddress)
        ensures
            addr == self.local_addr,
    {
        self.local_addr
    }

    /// The address that peers are told.
    pub fn advertise_addr(&self) -> (addr: SocketAddress)
        ensures
            addr == self.advertise_addr,
    {
        self.advertise_addr
    }

    /// This node.
    pub fn node_id(&self) -> (id: NodeId)
        ensures
            id == self.self_id,
    {
        self.self_id
    }

    /// Add a peer we know the node of.
    pub fn add_peer(&mut self, node_id: NodeId, addr: SocketAddress)
        ensures
            final(self).registry@ == old(self).registry@.with_resolved(node_id, addr),
            final(self).same_node(*old(self)),
            old(self).wf() ==> final(self).wf(),
    {
        self.registry.add_resolved(node_id, addr);
    }

    /// Add a peer address whose node we don't yet know. The engine will attempt to gossip to it
    /// until it responds, at which point it migrates to the resolved peers.
    pub fn add_bootstrap(&mut self, addr: SocketAddress)
        ensures
            final(self).registry@ == old(self).registry@.with_bootstrap(addr),
            final(self).same_node(*old(self)),
            old(self).wf() ==> final(self).wf(),
    {
        self.registry.add_bootstrap(addr);
    }

    /// Remove a peer without tombstoning. The peer may come back.
    pub fn remove_peer(&mut self, node_id: NodeId)
        ensures
            final(self).registry@ == old(self).registry@.without(node_id),
            final(self).same_node(*old(self)),
            old(self).wf() ==> final(self).wf(),
    {
        self.registry.remove(node_id);
    }

    /// Tombstone a peer. The tombstone propagates to other peers via the next gossip round, and
    /// the node can no longer be re-added.
    pub fn tombstone_peer(&mut self, node_id: NodeId)
        ensures
            final(self).registry@ == old(self).registry@.departed(set![node_id]),
            final(self).same_node(*old(self)),
            old(self).wf() ==> final(self).wf(),
    {
        self.registry.tombstone(node_id);
    }

    /// The resolved peers.
    pub fn known_peers(&self) -> (known: Vec<PeerEntry>)
        ensures
            known@.len() == self.registry@.resolved.dom().len(),
            forall|i: int|
                #![trigger known@[i]]
                0 <= i < known@.len() ==> self.registry@.resolved.contains_key(known@[i].node_id)
                    && self.registry@.resolved[known@[i].node_id] == known@[i].addr,
            forall|i: int, j: int|
                #![trigger known@[i], known@[j]]
                0 <= i < j < known@.len() ==> known@[i].node_id < known@[j].node_id,
            forall|id: NodeId| #[trigger]
                self.registry@.resolved.contains_key(id) ==> exists|i: int|
                    0 <= i < known@.len() && (#[trigger] known@[i]).node_id == id,
    {
        self.registry.known_peers()
    }

    /// The departed nodes.
    pub fn known_tombstones(&self) -> (departed: Vec<NodeId>)
        ensures
            crate::collections::lists_set(departed@, self.registry@.tombstones),
    {
        self.registry.known_tombstones()
    }

    /// Stops the engine.
    pub fn shutdown(&mut self)
        ensures
            !final(self).running,
            final(self).registry@ == old(self).registry@,
            *final(self) == (GossipEngine { running: false, ..*old(self) }),
    {
        self.running = false;
    }

    /// What `message` makes of the state `local` and of the registry. Hands back the merged
    /// state, where there is one to publish.
    ///
    /// A delta whose baseline is not included in the local version was computed against a state
    /// that this node never had: it is dropped, with everything else in the message. The sender
    /// does not learn of it and goes on with deltas against later versions. They are accepted
    /// again once this node's version includes such a baseline, by what it hears from others or by
    /// the full sync of a node that has not delivered to it yet.
    pub fn receive(&mut self, local: T, message: GossipMessage<T>) -> (merged: Option<T>)
        ensures
            final(self).same_node(*old(self)),
            old(self).wf() ==> final(self).wf(),
            match message {
                GossipMessage::Sync { from, state, known_peers, departed } => {
                    &&& final(self).registry@ == old(self).registry@.heard(
                        from,
                        known_peers@,
                        departed@,
                    )
                    &&& merged is Some
                    &&& T::lawful() ==> merged->0@ == T::join(local@, state@)
                },
                GossipMessage::SyncDelta { from, delta, since, known_peers, departed } => {
                    T::lawful() ==> {
                        let included = T::covers(
                            T::version_of(local@),
                            T::version_model(since),
                        );
                        &&& merged is Some <==> included
                        &&& included ==> final(self).registry@ == old(self).registry@.heard(
                            from,
                            known_peers@,
                            departed@,
                        ) && merged->0@ == T::absorb(local@, T::delta_model(delta))
                        &&& !included ==> final(self).registry@ == old(self).registry@
                    }
                },
                GossipMessage::Goodbye { from, departed, known_peers } => {
                    &&& final(self).registry@ == old(self).registry@.bidden_farewell(
                        known_peers@,
                        departed@,
                    )
                    &&& merged is None
                },
            },
    {
        match message {
            GossipMessage::Sync { from, state, known_peers, departed } => {
                self.registry.absorb_tombstones(&departed);
                self.registry.add_resolved(from.node_id, from.addr);
                self.registry.add_all_resolved(&known_peers);
                let mut merged = local;
                merged.merge(state);
                proof {
                    heard_keeps_self(old(self).registry@, from, known_peers@, departed@);
                }
                Some(merged)
            },
            GossipMessage::SyncDelta { from, delta, since, known_peers, departed } => {
                if !T::version_includes(&local.version(), &since) {
                    return None;
                }
                self.registry.absorb_tombstones(&departed);
                self.registry.add_resolved(from.node_id, from.addr);
                self.registry.add_all_resolved(&known_peers);
                let mut merged = local;
                merged.merge_delta(delta);
                proof {
                    heard_keeps_self(old(self).registry@, from, known_peers@, departed@);
                }
                Some(merged)
            },
            GossipMessage::Goodbye { from, departed, known_peers } => {
                self.registry.absorb_tombstones(&departed);
                self.registry.add_all_resolved(&known_peers);
                proof {
                    resolved_keep_self(
                        old(self).registry@.departed(departed@.to_set()),
                        known_peers@,
                    );
                }
                None
            },
        }
    }

    /// The message to one address: the whole state on first contact, and later what changed
    /// since the version that was last sent. It is sent even where nothing changed, because it
    /// carries the peers and the departed, too.
    fn message_to(
        &self,
        addr: SocketAddress,
        snapshot: &T,
        known_peers: &Vec<PeerEntry>,
        departed: &Vec<NodeId>,
    ) -> (out: Outgoing<T>)
        ensures
            self.is_message_to(addr, snapshot@, known_peers@, departed@, out),
    {
        let from = PeerEntry { node_id: self.self_id, addr: self.advertise_addr };
        let known_peers = copy_all(known_peers);
        let departed = copy_all(departed);
        let message = match self.registry.last_sent_version(&addr) {
            None => GossipMessage::Sync { from, state: snapshot.replica(), known_peers, departed },
            Some(previous) => GossipMessage::SyncDelta {
                from,
                delta: snapshot.delta_since(previous),
                since: T::copy_version(previous),
                known_peers,
                departed,
            },
        };
        Outgoing { addr, message, version: snapshot.version() }
    }

    /// The messages to the addresses that were chosen for a gossip round.
    pub fn messages_to(
        &self,
        chosen: &Vec<SocketAddress>,
        snapshot: &T,
        known_peers: &Vec<PeerEntry>,
        departed: &Vec<NodeId>,
    ) -> (outgoing: Vec<Outgoing<T>>)
        ensures
            outgoing@.len() == chosen@.len(),
            forall|i: int|
                #![trigger outgoing@[i]]
                0 <= i < outgoing@.len() ==> self.is_message_to(
                    chosen@[i],
                    snapshot@,
                    known_peers@,
                    departed@,
                    outgoing@[i],
                ),
    {
        let mut outgoing: Vec<Outgoing<T>> = Vec::new();
        for i in 0..chosen.len()
            invariant
                outgoing@.len() == i,
                forall|j: int|
                    #![trigger outgoing@[j]]
                    0 <= j < i ==> self.is_message_to(
                        chosen@[j],
                        snapshot@,
                        known_peers@,
                        departed@,
                        outgoing@[j],
                    ),
        {
            outgoing.push(self.message_to(chosen[i], snapshot, known_peers, departed));
        }
        outgoing
    }

    /// The message is what this node sends to the address when its state is `state`.
    pub open spec fn is_message_to(
        self,
        addr: SocketAddress,
        state: T::V,
        known: Seq<PeerEntry>,
        departed: Seq<NodeId>,
        out: Outgoing<T>,
    ) -> bool {
        &&& out.addr == addr
        &&& tells(
            out.message,
            PeerEntry { node_id: self.self_id, addr: self.advertise_addr },
            known,
            departed,
        )
        &&& T::lawful() ==> carries(out.message, self.registry@.sent, addr, state)
        &&& T::lawful() ==> T::version_model(out.version) == T::version_of(state)
    }

    /// The messages are a gossip round of this node: one to each of up to [`FANOUT`] targets.
    pub open spec fn is_round(self, state: T::V, outgoing: Seq<Outgoing<T>>) -> bool {
        exists|targets: Seq<SocketAddress>, known: Seq<PeerEntry>, departed: Seq<NodeId>|
            {
                &&& #[trigger] super::registry::is_snapshot(
                    self.registry@,
                    targets,
                    known,
                    departed,
                )
                &&& picked_from(
                    targets,
                    outgoing.map_values(|out: Outgoing<T>| out.addr),
                    FANOUT as nat,
                )
                &&& forall|i: int|
                    #![trigger outgoing[i]]
                    0 <= i < outgoing.len() ==> self.is_message_to(
                        outgoing[i].addr,
                        state,
                        known,
                        departed,
                        outgoing[i],
                    )
            }
    }

    /// One gossip round: the messages to up to [`FANOUT`] peers, picked at random.
    pub fn tick(&self, snapshot: &T) -> (outgoing: Vec<Outgoing<T>>)
        ensures
            self.is_round(snapshot@, outgoing@),
    {
        let (targets, known_peers, departed) = self.registry.gossip_snapshot();
        let ghost all = targets@;
        let chosen = choose_at_random(targets, FANOUT);
        let outgoing = self.messages_to(&chosen, snapshot, &known_peers, &departed);
        assert(outgoing@.map_values(|out: Outgoing<T>| out.addr) =~= chosen@);
        assert(super::registry::is_snapshot(self.registry@, all, known_peers@, departed@));
        outgoing
    }

    /// Records what became of a send. After a failure, hands back the node that was evicted for
    /// it, if any.
    pub fn sent(&mut self, addr: SocketAddress, delivered: bool, version: T::Version) -> (evicted:
        Option<NodeId>)
        ensures
            final(self).same_node(*old(self)),
            old(self).wf() ==> final(self).wf(),
            delivered ==> evicted is None && final(self).registry@ == old(self).registry@.reached(
                addr,
            ).with_sent(addr, version),
            !delivered ==> old(self).registry@.evicts(addr, evicted) && final(self).registry@
                == old(self).registry@.missed(addr, evicted),
    {
        if delivered {
            self.registry.mark_success(addr);
            self.registry.record_sent_version(addr, version);
            None
        } else {
            self.registry.mark_failure(addr)
        }
    }

    /// The farewell of this node, which counts itself among the departed.
    pub fn farewell(&self, known_peers: Vec<PeerEntry>, departed: Vec<NodeId>) -> (message:
        GossipMessage<T>)
        ensures
            message is Goodbye,
            tells(
                message,
                (PeerEntry { node_id: self.self_id, addr: self.advertise_addr }),
                known_peers@,
                if departed@.contains(self.self_id) {
                    departed@
                } else {
                    departed@.push(self.self_id)
                },
            ),
    {
        let mut departed = departed;
        let mut found = false;
        for i in 0..departed.len()
            invariant
                found == exists|j: int| 0 <= j < i && #[trigger] departed@[j] == self.self_id,
        {
            if departed[i] == self.self_id {
                found = true;
            }
        }
        if !found {
            departed.push(self.self_id);
        }
        GossipMessage::Goodbye {
            from: PeerEntry { node_id: self.self_id, addr: self.advertise_addr },
            departed,
            known_peers,
        }
    }

    /// Stops the engine. Hands back the farewell, with the up to [`GOODBYE_FANOUT`] peers,
    /// picked at random, to send it to.
    pub fn graceful_shutdown(&mut self) -> (goodbye: (Vec<SocketAddress>, GossipMessage<T>))
        ensures
            *final(self) == (GossipEngine { running: false, ..*old(self) }),
            goodbye.1 is Goodbye,
            exists|targets: Seq<SocketAddress>, known: Seq<PeerEntry>, departed: Seq<NodeId>|
                {
                    &&& #[trigger] super::registry::is_snapshot(
                        old(self).registry@,
                        targets,
                        known,
                        departed,
                    )
                    &&& picked_from(targets, goodbye.0@, GOODBYE_FANOUT as nat)
                    &&& tells(
                        goodbye.1,
                        (PeerEntry { node_id: old(self).self_id, addr: old(self).advertise_addr }),
                        known,
                        if departed.contains(old(self).self_id) {
                            departed
                        } else {
                            departed.push(old(self).self_id)
                        },
                    )
                },
    {
        let (targets, known_peers, departed) = self.registry.gossip_snapshot();
        let ghost all = targets@;
        let ghost known = known_peers@;
        let ghost gone = departed@;
        let chosen = choose_at_random(targets, GOODBYE_FANOUT);
        let message = self.farewell(known_peers, departed);
        assert(super::registry::is_snapshot(self.registry@, all, known, gone));
        self.shutdown();
        (chosen, message)
    }
}

/// Adding bootstraps leaves this node what it is.
proof fn bootstraps_keep_self<V>(peers: Peers<V>, addrs: Seq<SocketAddress>)
    ensures
        peers.with_all_bootstraps(addrs).self_id == peers.self_id,
        peers.with_all_bootstraps(addrs).self_addr == peers.self_addr,
    decreases addrs.len(),
{
    if addrs.len() > 0 {
        bootstraps_keep_self(peers, addrs.drop_last());
    }
}

/// Adding peers leaves this node what it is.
proof fn resolved_keep_self<V>(peers: Peers<V>, entries: Seq<PeerEntry>)
    ensures
        peers.with_all_resolved(entries).self_id == peers.self_id,
        peers.with_all_resolved(entries).self_addr == peers.self_addr,
        peers.with_all_resolved(entries).tombstones == peers.tombstones,
    decreases entries.len(),
{
    if entries.len() > 0 {
        resolved_keep_self(peers, entries.drop_last());
    }
}

/// Hearing of peers leaves this node what it is.
proof fn heard_keeps_self<V>(
    peers: Peers<V>,
    from: PeerEntry,
    known: Seq<PeerEntry>,
    departed: Seq<NodeId>,
)
    ensures
        peers.heard(from, known, departed).self_id == peers.self_id,
        peers.heard(from, known, departed).self_addr == peers.self_addr,
        peers.heard(from, known, departed).tombstones == peers.departed(
            departed.to_set(),
        ).tombstones,
{
    resolved_keep_self(
        peers.departed(departed.to_set()).with_resolved(from.node_id, from.addr),
        known,
    );
}

} // verus!

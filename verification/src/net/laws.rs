//! What holds of the gossip protocol across its operations.
use super::addr::SocketAddress;
use super::engine::{carries, picked_from};
use super::message::{GossipMessage, PeerEntry};
use super::registry::{is_snapshot, Peers, FAILURE_THRESHOLD};
use crate::traits::{Crdt, DeltaCrdt};
use crate::NodeId;
use vstd::prelude::*;

verus! {

/// What can happen to a registry.
#[verifier::reject_recursive_types(V)]
pub enum PeerEvent<V> {
    Resolved(NodeId, SocketAddress),
    Bootstrap(SocketAddress),
    Removed(NodeId),
    Departed(Set<NodeId>),
    Reached(SocketAddress),
    Sent(SocketAddress, V),
    /// A failed send, and the node that is evicted for it.
    Missed(SocketAddress, Option<NodeId>),
}

impl<V> Peers<V> {
    /// The registry after an event.
    pub open spec fn after(self, event: PeerEvent<V>) -> Peers<V> {
        match event {
            PeerEvent::Resolved(id, addr) => self.with_resolved(id, addr),
            PeerEvent::Bootstrap(addr) => self.with_bootstrap(addr),
            PeerEvent::Removed(id) => self.without(id),
            PeerEvent::Departed(ids) => self.departed(ids),
            PeerEvent::Reached(addr) => self.reached(addr),
            PeerEvent::Sent(addr, version) => self.with_sent(addr, version),
            PeerEvent::Missed(addr, evicted) => self.missed(addr, evicted),
        }
    }

    /// The event can happen: a failed send evicts the node that it is said to.
    pub open spec fn allows(self, event: PeerEvent<V>) -> bool {
        match event {
            PeerEvent::Missed(addr, evicted) => self.evicts(addr, evicted),
            _ => true,
        }
    }

    /// The registry after a run of events.
    pub open spec fn after_all(self, events: Seq<PeerEvent<V>>) -> Peers<V>
        decreases events.len(),
    {
        if events.len() == 0 {
            self
        } else {
            self.after_all(events.drop_last()).after(events.last())
        }
    }

    /// Each event of the run can happen where it does.
    pub open spec fn allows_all(self, events: Seq<PeerEvent<V>>) -> bool
        decreases events.len(),
    {
        events.len() > 0 ==> self.allows_all(events.drop_last()) && self.after_all(
            events.drop_last(),
        ).allows(events.last())
    }
}

/// Every event keeps the invariant, takes back no tombstone, and leaves this node what it is.
pub proof fn event_keeps_invariant<V>(peers: Peers<V>, event: PeerEvent<V>)
    requires
        peers.wf(),
        peers.allows(event),
    ensures
        peers.after(event).wf(),
        peers.tombstones.subset_of(peers.after(event).tombstones),
        peers.after(event).self_id == peers.self_id,
        peers.after(event).self_addr == peers.self_addr,
{
    let after = peers.after(event);
    assert forall|id: NodeId| #[trigger] after.resolved.contains_key(id) implies after.resolved[id]
        != after.self_addr && !after.tombstones.contains(id) && !after.bootstraps.contains(
        after.resolved[id],
    ) by {
        if peers.resolved.contains_key(id) {}
    }
    assert forall|addr: SocketAddress| #[trigger] after.failures.contains_key(addr) implies 0
        < after.failures[addr] < FAILURE_THRESHOLD by {
        if peers.failures.contains_key(addr) {}
    }
}

/// Departure is final: once a node is tombstoned, no run of events makes it a peer again.
pub proof fn departed_never_returns<V>(peers: Peers<V>, id: NodeId, events: Seq<PeerEvent<V>>)
    requires
        peers.wf(),
        peers.tombstones.contains(id),
        peers.allows_all(events),
    ensures
        peers.after_all(events).wf(),
        peers.after_all(events).tombstones.contains(id),
        !peers.after_all(events).resolved.contains_key(id),
    decreases events.len(),
{
    if events.len() > 0 {
        departed_never_returns(peers, id, events.drop_last());
        event_keeps_invariant(peers.after_all(events.drop_last()), events.last());
    }
    let after = peers.after_all(events);
    if after.resolved.contains_key(id) {
        assert(!after.tombstones.contains(id));
    }
}

/// A node never becomes its own peer, and never counts itself among the departed.
pub proof fn never_own_peer<V>(peers: Peers<V>, events: Seq<PeerEvent<V>>)
    requires
        peers.wf(),
        peers.allows_all(events),
    ensures
        peers.after_all(events).wf(),
        peers.after_all(events).self_id == peers.self_id,
        peers.after_all(events).self_addr == peers.self_addr,
        !peers.after_all(events).resolved.contains_key(peers.self_id),
        !peers.after_all(events).tombstones.contains(peers.self_id),
        !peers.after_all(events).bootstraps.contains(peers.self_addr),
    decreases events.len(),
{
    if events.len() > 0 {
        never_own_peer(peers, events.drop_last());
        event_keeps_invariant(peers.after_all(events.drop_last()), events.last());
    }
}

/// A removed peer is gone and may come back; a tombstoned one is gone.
pub proof fn removed_may_return<V>(peers: Peers<V>, id: NodeId, addr: SocketAddress)
    requires
        peers.wf(),
        id != peers.self_id,
        addr != peers.self_addr,
    ensures
        !peers.without(id).resolved.contains_key(id),
        !peers.tombstones.contains(id) ==> peers.without(id).with_resolved(
            id,
            addr,
        ).resolved.contains_key(id),
        !peers.departed(set![id]).resolved.contains_key(id),
        peers.departed(set![id]).tombstones.contains(id),
        !peers.departed(set![id]).with_resolved(id, addr).resolved.contains_key(id),
{
}

/// A bootstrap address that turns out to be that of a node migrates to the resolved peers.
pub proof fn bootstrap_migrates<V>(peers: Peers<V>, id: NodeId, addr: SocketAddress)
    requires
        peers.wf(),
        id != peers.self_id,
        addr != peers.self_addr,
        !peers.tombstones.contains(id),
    ensures
        peers.with_bootstrap(addr).with_resolved(id, addr).resolved.contains_key(id),
        peers.with_bootstrap(addr).with_resolved(id, addr).resolved[id] == addr,
        !peers.with_bootstrap(addr).with_resolved(id, addr).bootstraps.contains(addr),
{
}

/// The registry after `n` failed sends in a row to the address, none of which evicts.
pub open spec fn after_misses<V>(peers: Peers<V>, addr: SocketAddress, n: nat) -> Peers<V>
    decreases n,
{
    if n == 0 {
        peers
    } else {
        after_misses(peers, addr, (n - 1) as nat).missed(addr, None)
    }
}

/// Failed sends below the threshold only count.
proof fn misses_count<V>(peers: Peers<V>, addr: SocketAddress, n: nat)
    requires
        !peers.failures.contains_key(addr),
        n < FAILURE_THRESHOLD,
    ensures
        after_misses(peers, addr, n).failures_at(addr) == n,
        after_misses(peers, addr, n) == (Peers {
            failures: after_misses(peers, addr, n).failures,
            ..peers
        }),
        n > 0 ==> after_misses(peers, addr, (n - 1) as nat).evicts(addr, None),
    decreases n,
{
    if n > 0 {
        misses_count(peers, addr, (n - 1) as nat);
    }
}

/// Consecutive failures evict: after nine failed sends in a row to the address of a peer nothing
/// but the count has changed, and the tenth tombstones the peer.
pub proof fn tenth_failure_evicts<V>(peers: Peers<V>, addr: SocketAddress, id: NodeId)
    requires
        peers.wf(),
        peers.is_node_at(addr, id),
        !peers.failures.contains_key(addr),
    ensures
        after_misses(peers, addr, 9).resolved == peers.resolved,
        after_misses(peers, addr, 9).tombstones == peers.tombstones,
        after_misses(peers, addr, 9).evicts(addr, Some(id)),
        !after_misses(peers, addr, 9).evicts(addr, None),
        after_misses(peers, addr, 9).missed(addr, Some(id)).tombstones.contains(id),
        !after_misses(peers, addr, 9).missed(addr, Some(id)).resolved.contains_key(id),
        !after_misses(peers, addr, 9).missed(addr, Some(id)).sent.contains_key(addr),
{
    misses_count(peers, addr, 9);
    let before = after_misses(peers, addr, 9);
    assert(before.resolved.contains_key(id) && before.resolved[id] == addr);
    assert(before.has_address(addr));
    assert(before.is_node_at(addr, id));
    assert(id != before.self_id);
    let cleared = Peers { failures: before.failures.remove(addr), ..before };
    let gone = set![id].remove(cleared.self_id);
    assert(gone.contains(id));
    assert(cleared.resolved.contains_key(id) && gone.contains(id) && cleared.resolved[id] == addr);
    assert(super::registry::addresses_of(cleared.resolved, gone).contains(addr));
}

/// Consecutive failures drop a bootstrap: the tenth failed send in a row to an address that no
/// peer is known at removes the address, without a tombstone.
pub proof fn tenth_failure_drops_bootstrap<V>(peers: Peers<V>, addr: SocketAddress)
    requires
        peers.wf(),
        !peers.has_address(addr),
        !peers.failures.contains_key(addr),
    ensures
        after_misses(peers, addr, 9).bootstraps == peers.bootstraps,
        after_misses(peers, addr, 9).evicts(addr, None),
        !after_misses(peers, addr, 10).bootstraps.contains(addr),
        after_misses(peers, addr, 10).tombstones == peers.tombstones,
{
    misses_count(peers, addr, 9);
    let before = after_misses(peers, addr, 9);
    assert(!before.has_address(addr)) by {
        if before.has_address(addr) {
            let id = choose|id: NodeId| #[trigger]
                before.resolved.contains_key(id) && before.resolved[id] == addr;
            assert(peers.resolved.contains_key(id) && peers.resolved[id] == addr);
        }
    }
    assert(after_misses(peers, addr, 10) == before.missed(addr, None));
}

/// A success starts the count over.
pub proof fn success_resets_failures<V>(peers: Peers<V>, addr: SocketAddress)
    ensures
        peers.reached(addr).failures_at(addr) == 0,
{
}

/// A node that a message counts among the departed is not brought back by the same message, not
/// even where the message is from that node or tells of it as a peer.
pub proof fn departed_not_brought_back<V>(
    peers: Peers<V>,
    from: PeerEntry,
    known: Seq<PeerEntry>,
    departed: Seq<NodeId>,
    id: NodeId,
)
    requires
        peers.wf(),
        departed.contains(id),
        id != peers.self_id,
    ensures
        !peers.heard(from, known, departed).resolved.contains_key(id),
        peers.heard(from, known, departed).tombstones.contains(id),
        !peers.bidden_farewell(known, departed).resolved.contains_key(id),
        peers.bidden_farewell(known, departed).tombstones.contains(id),
{
    let absorbed = peers.departed(departed.to_set());
    event_keeps_invariant(peers, PeerEvent::Departed(departed.to_set()));
    assert(absorbed.tombstones.contains(id));
    stays_departed(absorbed, known, id);
    event_keeps_invariant(absorbed, PeerEvent::Resolved(from.node_id, from.addr));
    stays_departed(absorbed.with_resolved(from.node_id, from.addr), known, id);
}

proof fn stays_departed<V>(peers: Peers<V>, known: Seq<PeerEntry>, id: NodeId)
    requires
        peers.wf(),
        peers.tombstones.contains(id),
    ensures
        peers.with_all_resolved(known).wf(),
        peers.with_all_resolved(known).tombstones.contains(id),
        !peers.with_all_resolved(known).resolved.contains_key(id),
    decreases known.len(),
{
    if known.len() > 0 {
        stays_departed(peers, known.drop_last(), id);
        event_keeps_invariant(
            peers.with_all_resolved(known.drop_last()),
            PeerEvent::Resolved(known.last().node_id, known.last().addr),
        );
    }
    let after = peers.with_all_resolved(known);
    if after.resolved.contains_key(id) {
        assert(!after.tombstones.contains(id));
    }
}

/// Peer-list gossip: a peer that a message tells of is a peer afterwards, unless it has departed
/// or is this node itself.
pub proof fn told_peers_are_added<V>(peers: Peers<V>, known: Seq<PeerEntry>, i: int)
    requires
        peers.wf(),
        0 <= i < known.len(),
        known[i].node_id != peers.self_id,
        known[i].addr != peers.self_addr,
        !peers.tombstones.contains(known[i].node_id),
    ensures
        peers.with_all_resolved(known).resolved.contains_key(known[i].node_id),
        peers.with_all_resolved(known).tombstones == peers.tombstones,
        peers.with_all_resolved(known).self_id == peers.self_id,
        peers.with_all_resolved(known).self_addr == peers.self_addr,
    decreases known.len(),
{
    let rest = known.drop_last();
    let before = peers.with_all_resolved(rest);
    same_node_after(peers, rest);
    if i < rest.len() {
        assert(rest[i] == known[i]);
        told_peers_are_added(peers, rest, i);
    }
}

proof fn same_node_after<V>(peers: Peers<V>, known: Seq<PeerEntry>)
    ensures
        peers.with_all_resolved(known).tombstones == peers.tombstones,
        peers.with_all_resolved(known).self_id == peers.self_id,
        peers.with_all_resolved(known).self_addr == peers.self_addr,
    decreases known.len(),
{
    if known.len() > 0 {
        same_node_after(peers, known.drop_last());
    }
}

/// First contact carries the whole state; after a delivery, the next message carries what changed
/// since the version that was delivered; and after the peer has departed, a new contact starts
/// over with the whole state.
pub proof fn full_sync_then_deltas<T: DeltaCrdt>(
    peers: Peers<T::Version>,
    addr: SocketAddress,
    version: T::Version,
    message: GossipMessage<T>,
    state: T::V,
)
    ensures
        carries(message, peers.sent, addr, state) && !peers.sent.contains_key(addr)
            ==> message is Sync,
        carries(message, peers.reached(addr).with_sent(addr, version).sent, addr, state) ==> (
        message matches GossipMessage::SyncDelta {
            from,
            delta,
            since,
            known_peers,
            departed,
        } && T::version_model(since) == T::version_model(version) && T::delta_model(delta)
            == T::delta_of(state, T::version_model(version))),
        forall|id: NodeId| #[trigger]
            peers.resolved.contains_key(id) && id != peers.self_id && peers.resolved[id] == addr
                && carries(message, peers.departed(set![id]).sent, addr, state) ==> message is Sync,
{
    assert forall|id: NodeId| #[trigger]
        peers.resolved.contains_key(id) && id != peers.self_id && peers.resolved[id] == addr
            && carries(message, peers.departed(set![id]).sent, addr, state) implies
                message is Sync by {
        let gone = set![id].remove(peers.self_id);
        assert(gone.contains(id));
        assert(super::registry::addresses_of(peers.resolved, gone).contains(addr));
    }
}

/// Messages go only to peers and bootstraps.
pub proof fn picked_are_targets<V>(
    peers: Peers<V>,
    targets: Seq<SocketAddress>,
    known: Seq<PeerEntry>,
    departed: Seq<NodeId>,
    chosen: Seq<SocketAddress>,
    amount: nat,
    i: int,
)
    requires
        is_snapshot(peers, targets, known, departed),
        picked_from(targets, chosen, amount),
        0 <= i < chosen.len(),
    ensures
        peers.has_address(chosen[i]) || peers.bootstraps.contains(chosen[i]),
{
    let addr = chosen[i];
    assert(chosen.contains(addr));
    chosen.to_multiset_ensures();
    targets.to_multiset_ensures();
    assert(chosen.to_multiset().count(addr) > 0);
    assert(targets.to_multiset().count(addr) > 0);
    assert(targets.contains(addr));
    let k = choose|k: int| 0 <= k < targets.len() && targets[k] == addr;
    let (order, boots) = choose|order: Seq<(NodeId, SocketAddress)>, boots: Seq<SocketAddress>|
        {
            &&& #[trigger] crate::collections::lists_map(order, peers.resolved)
            &&& #[trigger] crate::collections::lists_set(boots, peers.bootstraps)
            &&& targets == order.map_values(|row: (NodeId, SocketAddress)| row.1) + boots
        };
    if k < order.len() {
        assert(order[k].1 == addr);
        assert(peers.resolved.contains_key(order[k].0) && peers.resolved[order[k].0] == addr);
    } else {
        assert(boots[k - order.len()] == addr);
    }
}

/// A node never tells of itself as a peer, nor of a departed node.
pub proof fn told_peers_are_alive<V>(
    peers: Peers<V>,
    targets: Seq<SocketAddress>,
    known: Seq<PeerEntry>,
    departed: Seq<NodeId>,
    i: int,
)
    requires
        peers.wf(),
        is_snapshot(peers, targets, known, departed),
        0 <= i < known.len(),
    ensures
        known.len() <= super::registry::KNOWN_PEERS_CAP,
        known[i].node_id != peers.self_id,
        !departed.contains(known[i].node_id),
        peers.resolved.contains_key(known[i].node_id),
        peers.resolved[known[i].node_id] == known[i].addr,
{
    let (order, boots) = choose|order: Seq<(NodeId, SocketAddress)>, boots: Seq<SocketAddress>|
        {
            &&& #[trigger] crate::collections::lists_map(order, peers.resolved)
            &&& #[trigger] crate::collections::lists_set(boots, peers.bootstraps)
            &&& targets == order.map_values(|row: (NodeId, SocketAddress)| row.1) + boots
            &&& known == super::registry::entries_of(order).take(
                if order.len() < super::registry::KNOWN_PEERS_CAP {
                    order.len() as int
                } else {
                    super::registry::KNOWN_PEERS_CAP as int
                },
            )
            &&& crate::collections::lists_set(departed, peers.tombstones)
        };
    assert(known[i] == (PeerEntry { node_id: order[i].0, addr: order[i].1 }));
    assert(peers.resolved.contains_key(order[i].0));
    if departed.contains(known[i].node_id) {
        let k = choose|k: int| 0 <= k < departed.len() && departed[k] == known[i].node_id;
        assert(peers.tombstones.contains(departed[k]));
    }
}

/// Nobody gossips to the departed: where no other node is at the address of a node that has
/// departed, the address is not a target any more.
pub proof fn departed_is_no_target<V>(peers: Peers<V>, id: NodeId)
    requires
        peers.wf(),
        peers.resolved.contains_key(id),
        forall|other: NodeId| #[trigger]
            peers.resolved.contains_key(other) && peers.resolved[other] == peers.resolved[id]
                ==> other == id,
    ensures
        !peers.departed(set![id]).has_address(peers.resolved[id]),
        !peers.departed(set![id]).bootstraps.contains(peers.resolved[id]),
{
    let addr = peers.resolved[id];
    let after = peers.departed(set![id]);
    if after.has_address(addr) {
        let other = choose|other: NodeId| #[trigger]
            after.resolved.contains_key(other) && after.resolved[other] == addr;
        assert(peers.resolved.contains_key(other));
    }
}

/// Publishing merges instead of replacing loses nothing: two messages that were each merged with
/// the same earlier state, and whose results are then merged into the state one after the other,
/// both land in it.
pub proof fn concurrent_merges_both_land<T: Crdt>(state: T::V, a: T::V, c: T::V)
    requires
        T::survives(a, state),
        T::survives(c, state),
        T::survives(state, T::join(state, a)),
        T::survives(T::join(state, a), state),
        T::survives(T::join(state, T::join(state, a)), T::join(state, c)),
        T::survives(T::join(state, c), T::join(state, T::join(state, a))),
    ensures
        ({
            let after = T::join(T::join(state, T::join(state, a)), T::join(state, c));
            T::below(state, after) && T::below(a, after) && T::below(c, after)
        }),
{
    let once = T::join(state, a);
    let other = T::join(state, c);
    let first = T::join(state, once);
    let after = T::join(first, other);
    T::merge_includes(a, state);
    T::merge_includes(c, state);
    T::merge_includes(state, once);
    T::merge_includes(once, state);
    T::merge_includes(first, other);
    T::merge_includes(other, first);
    T::compare_transitive(a, once, first);
    T::compare_transitive(a, first, after);
    T::compare_transitive(c, other, after);
    T::compare_transitive(state, first, after);
}

} // verus!

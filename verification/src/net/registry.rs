//! The peers that a node knows.
use super::addr::{same_socket, SocketAddress};
use super::message::PeerEntry;
use crate::collections::{map_entries, set_elements};
use crate::NodeId;
use std::collections::{BTreeMap, BTreeSet};
use vstd::prelude::*;

verus! {

/// Number of peers that a message tells of, at most.
pub const KNOWN_PEERS_CAP: usize = 64;

/// Number of consecutive failed sends to an address before the peer there is evicted.
pub const FAILURE_THRESHOLD: u32 = 10;

/// Tracks the set of peers known to a node.
///
/// `resolved` is keyed by node: one definitive address per remote node. `bootstraps` are
/// addresses that we were told about but haven't yet exchanged messages with, so the node there
/// is not known. Once a bootstrap address gossips with us, it migrates into `resolved`.
///
/// `tombstones` records nodes that have departed (gracefully or by repeated failure). Once a node
/// is tombstoned it can never be re-added to `resolved`.
///
/// `failure_counts` counts consecutive failed sends. When it hits [`FAILURE_THRESHOLD`] the node
/// at the address is tombstoned; an unresolved bootstrap is just dropped.
///
/// `last_sent` is the version last successfully sent to each address. It drives the choice
/// between a full sync on the first contact and a delta later. `V` is the type of versions.
pub struct PeerRegistry<V> {
    pub self_id: NodeId,
    pub self_addr: SocketAddress,
    pub resolved: BTreeMap<NodeId, SocketAddress>,
    pub bootstraps: BTreeSet<SocketAddress>,
    pub tombstones: BTreeSet<NodeId>,
    pub failure_counts: BTreeMap<SocketAddress, u32>,
    pub last_sent: BTreeMap<SocketAddress, V>,
}

/// The model of a registry.
#[verifier::reject_recursive_types(V)]
pub struct Peers<V> {
    pub self_id: NodeId,
    pub self_addr: SocketAddress,
    pub resolved: Map<NodeId, SocketAddress>,
    pub bootstraps: Set<SocketAddress>,
    pub tombstones: Set<NodeId>,
    pub failures: Map<SocketAddress, u32>,
    pub sent: Map<SocketAddress, V>,
}

impl<V> View for PeerRegistry<V> {
    type V = Peers<V>;

    open spec fn view(&self) -> Peers<V> {
        Peers {
            self_id: self.self_id,
            self_addr: self.self_addr,
            resolved: self.resolved@,
            bootstraps: self.bootstraps@,
            tombstones: self.tombstones@,
            failures: self.failure_counts@,
            sent: self.last_sent@,
        }
    }
}

/// The addresses of the resolved nodes among `ids`.
pub open spec fn addresses_of(
    resolved: Map<NodeId, SocketAddress>,
    ids: Set<NodeId>,
) -> Set<SocketAddress> {
    Set::new(
        |addr: SocketAddress|
            exists|id: NodeId| #[trigger]
                resolved.contains_key(id) && ids.contains(id) && resolved[id] == addr,
    )
}

impl<V> Peers<V> {
    /// The invariant of a registry: this node is not among its own peers, the departed are not
    /// among the resolved, no bootstrap is resolved, and every failure count is below the
    /// threshold.
    pub open spec fn wf(self) -> bool {
        &&& !self.resolved.contains_key(self.self_id)
        &&& !self.tombstones.contains(self.self_id)
        &&& !self.bootstraps.contains(self.self_addr)
        &&& forall|id: NodeId| #[trigger]
            self.resolved.contains_key(id) ==> self.resolved[id] != self.self_addr
                && !self.tombstones.contains(id) && !self.bootstraps.contains(self.resolved[id])
        &&& forall|addr: SocketAddress| #[trigger]
            self.failures.contains_key(addr) ==> 0 < self.failures[addr] < FAILURE_THRESHOLD
    }

    /// The registry of a node that knows nobody.
    pub open spec fn lonely(self_id: NodeId, self_addr: SocketAddress) -> Peers<V> {
        Peers {
            self_id,
            self_addr,
            resolved: Map::empty(),
            bootstraps: Set::empty(),
            tombstones: Set::empty(),
            failures: Map::empty(),
            sent: Map::empty(),
        }
    }

    /// A node is resolved to an address, unless it is this node or has departed.
    pub open spec fn with_resolved(self, id: NodeId, addr: SocketAddress) -> Peers<V> {
        if id == self.self_id || addr == self.self_addr || self.tombstones.contains(id) {
            self
        } else {
            Peers {
                resolved: self.resolved.insert(id, addr),
                bootstraps: self.bootstraps.remove(addr),
                ..self
            }
        }
    }

    /// The nodes of a list are resolved, one after the other.
    pub open spec fn with_all_resolved(self, entries: Seq<PeerEntry>) -> Peers<V>
        decreases entries.len(),
    {
        if entries.len() == 0 {
            self
        } else {
            self.with_all_resolved(entries.drop_last()).with_resolved(
                entries.last().node_id,
                entries.last().addr,
            )
        }
    }

    /// Some node is resolved to the address.
    pub open spec fn has_address(self, addr: SocketAddress) -> bool {
        exists|id: NodeId| #[trigger]
            self.resolved.contains_key(id) && self.resolved[id] == addr
    }

    /// An address becomes a bootstrap, unless it is that of this node or of a resolved one.
    pub open spec fn with_bootstrap(self, addr: SocketAddress) -> Peers<V> {
        if addr == self.self_addr || self.has_address(addr) {
            self
        } else {
            Peers { bootstraps: self.bootstraps.insert(addr), ..self }
        }
    }

    /// The addresses of a list become bootstraps, one after the other.
    pub open spec fn with_all_bootstraps(self, addrs: Seq<SocketAddress>) -> Peers<V>
        decreases addrs.len(),
    {
        if addrs.len() == 0 {
            self
        } else {
            self.with_all_bootstraps(addrs.drop_last()).with_bootstrap(addrs.last())
        }
    }

    /// A node is dropped, and may come back.
    pub open spec fn without(self, id: NodeId) -> Peers<V> {
        Peers { resolved: self.resolved.remove(id), ..self }
    }

    /// The nodes have departed: they are dropped and cannot come back, and what was known of
    /// their addresses is forgotten. This node itself is left out.
    pub open spec fn departed(self, ids: Set<NodeId>) -> Peers<V> {
        let gone = ids.remove(self.self_id);
        let addrs = addresses_of(self.resolved, gone);
        Peers {
            resolved: self.resolved.remove_keys(gone),
            tombstones: self.tombstones.union(gone),
            failures: self.failures.remove_keys(addrs),
            sent: self.sent.remove_keys(addrs),
            ..self
        }
    }

    /// A send to the address has succeeded.
    pub open spec fn reached(self, addr: SocketAddress) -> Peers<V> {
        Peers { failures: self.failures.remove(addr), ..self }
    }

    /// A version has been sent to the address.
    pub open spec fn with_sent(self, addr: SocketAddress, version: V) -> Peers<V> {
        Peers { sent: self.sent.insert(addr, version), ..self }
    }

    /// The number of consecutive failed sends to the address.
    pub open spec fn failures_at(self, addr: SocketAddress) -> u32 {
        if self.failures.contains_key(addr) {
            self.failures[addr]
        } else {
            0
        }
    }

    /// `id` is the lowest of the nodes that are resolved to the address.
    pub open spec fn is_node_at(self, addr: SocketAddress, id: NodeId) -> bool {
        &&& self.resolved.contains_key(id)
        &&& self.resolved[id] == addr
        &&& forall|other: NodeId| #[trigger]
            self.resolved.contains_key(other) && self.resolved[other] == addr ==> id <= other
    }

    /// A send to the address has failed. `evicted` is the node that departs because of it.
    pub open spec fn missed(self, addr: SocketAddress, evicted: Option<NodeId>) -> Peers<V> {
        if self.failures_at(addr) + 1 < FAILURE_THRESHOLD {
            Peers {
                failures: self.failures.insert(addr, (self.failures_at(addr) + 1) as u32),
                ..self
            }
        } else {
            let cleared = Peers { failures: self.failures.remove(addr), ..self };
            match evicted {
                Some(id) => cleared.departed(set![id]),
                None => Peers {
                    bootstraps: self.bootstraps.remove(addr),
                    sent: self.sent.remove(addr),
                    ..cleared
                },
            }
        }
    }

    /// `evicted` is the node that departs when a send to the address fails.
    pub open spec fn evicts(self, addr: SocketAddress, evicted: Option<NodeId>) -> bool {
        match evicted {
            Some(id) => self.failures_at(addr) + 1 >= FAILURE_THRESHOLD && self.is_node_at(
                addr,
                id,
            ),
            None => self.failures_at(addr) + 1 < FAILURE_THRESHOLD || !self.has_address(addr),
        }
    }
}

/// The nodes of `order` and where to reach them.
pub open spec fn entries_of(order: Seq<(NodeId, SocketAddress)>) -> Seq<PeerEntry> {
    Seq::new(order.len(), |i: int| PeerEntry { node_id: order[i].0, addr: order[i].1 })
}

/// What a gossip round goes by: the addresses to send to, which are those of the resolved nodes
/// and the bootstraps; the nodes to tell of, which are the resolved ones, up to the cap; and the
/// departed.
pub open spec fn is_snapshot<V>(
    peers: Peers<V>,
    targets: Seq<SocketAddress>,
    known: Seq<PeerEntry>,
    departed: Seq<NodeId>,
) -> bool {
    exists|order: Seq<(NodeId, SocketAddress)>, boots: Seq<SocketAddress>|
        {
            &&& #[trigger] crate::collections::lists_map(order, peers.resolved)
            &&& #[trigger] crate::collections::lists_set(boots, peers.bootstraps)
            &&& targets == order.map_values(|row: (NodeId, SocketAddress)| row.1) + boots
            &&& known == entries_of(order).take(
                if order.len() < KNOWN_PEERS_CAP {
                    order.len() as int
                } else {
                    KNOWN_PEERS_CAP as int
                },
            )
            &&& crate::collections::lists_set(departed, peers.tombstones)
        }
}

impl<V> PeerRegistry<V> {
    /// The registry of a node that knows nobody.
    pub fn new(self_id: NodeId, self_addr: SocketAddress) -> (registry: Self)
        ensures
            registry@ == Peers::<V>::lonely(self_id, self_addr),
            registry@.wf(),
    {
        PeerRegistry {
            self_id,
            self_addr,
            resolved: BTreeMap::new(),
            bootstraps: BTreeSet::new(),
            tombstones: BTreeSet::new(),
            failure_counts: BTreeMap::new(),
            last_sent: BTreeMap::new(),
        }
    }

    /// The version that was last delivered to `addr`, or `None` if nothing ever was.
    pub fn last_sent_version(&self, addr: &SocketAddress) -> (version: Option<&V>)
        ensures
            match version {
                Some(v) => self@.sent.contains_key(*addr) && self@.sent[*addr] == *v,
                None => !self@.sent.contains_key(*addr),
            },
    {
        self.last_sent.get(addr)
    }

    /// Record the version that was just delivered to `addr`.
    pub fn record_sent_version(&mut self, addr: SocketAddress, version: V)
        ensures
            final(self)@ == old(self)@.with_sent(addr, version),
            old(self)@.wf() ==> final(self)@.wf(),
    {
        self.last_sent.insert(addr, version);
        assert(self@ == old(self)@.with_sent(addr, version));
    }

    /// Add a peer whose node is known. This node itself and departed nodes are ignored.
    pub fn add_resolved(&mut self, id: NodeId, addr: SocketAddress)
        ensures
            final(self)@ == old(self)@.with_resolved(id, addr),
            old(self)@.wf() ==> final(self)@.wf(),
    {
        if id == self.self_id || same_socket(&addr, &self.self_addr) {
            return ;
        }
        // Once tombstoned, never re-added.
        if self.tombstones.contains(&id) {
            return ;
        }
        self.bootstraps.remove(&addr);
        self.resolved.insert(id, addr);
    }

    /// Add the peers of a list, one after the other.
    pub fn add_all_resolved(&mut self, entries: &Vec<PeerEntry>)
        ensures
            final(self)@ == old(self)@.with_all_resolved(entries@),
            old(self)@.wf() ==> final(self)@.wf(),
    {
        let ghost start = self@;
        assert(entries@.take(0) =~= Seq::empty());
        for i in 0..entries.len()
            invariant
                self@ == start.with_all_resolved(entries@.take(i as int)),
                start.wf() ==> self@.wf(),
        {
            self.add_resolved(entries[i].node_id, entries[i].addr);
            assert(entries@.take(i + 1).drop_last() =~= entries@.take(i as int));
            assert(entries@.take(i + 1).last() == entries@[i as int]);
        }
        assert(entries@.take(entries@.len() as int) =~= entries@);
    }

    /// Add an address whose node is not known yet.
    pub fn add_bootstrap(&mut self, addr: SocketAddress)
        ensures
            final(self)@ == old(self)@.with_bootstrap(addr),
            old(self)@.wf() ==> final(self)@.wf(),
    {
        if same_socket(&addr, &self.self_addr) {
            return ;
        }
        if self.node_at(&addr).is_some() {
            return ;
        }
        self.bootstraps.insert(addr);
    }

    /// Add the addresses of a list, one after the other.
    pub fn add_all_bootstraps(&mut self, addrs: &Vec<SocketAddress>)
        ensures
            final(self)@ == old(self)@.with_all_bootstraps(addrs@),
            old(self)@.wf() ==> final(self)@.wf(),
    {
        let ghost start = self@;
        assert(addrs@.take(0) =~= Seq::empty());
        for i in 0..addrs.len()
            invariant
                self@ == start.with_all_bootstraps(addrs@.take(i as int)),
                start.wf() ==> self@.wf(),
        {
            self.add_bootstrap(addrs[i]);
            assert(addrs@.take(i + 1).drop_last() =~= addrs@.take(i as int));
            assert(addrs@.take(i + 1).last() == addrs@[i as int]);
        }
        assert(addrs@.take(addrs@.len() as int) =~= addrs@);
    }

    /// The lowest node that is resolved to the address.
    fn node_at(&self, addr: &SocketAddress) -> (node: Option<NodeId>)
        ensures
            match node {
                Some(id) => self@.is_node_at(*addr, id),
                None => !self@.has_address(*addr),
            },
    {
        let rows = map_entries(&self.resolved);
        let ghost listed = rows@.unref();
        let ghost keys = listed.map_values(|row: (NodeId, SocketAddress)| row.0);
        for i in 0..rows.len()
            invariant
                listed == rows@.unref(),
                keys == listed.map_values(|row: (NodeId, SocketAddress)| row.0),
                vstd::std_specs::btree::increasing_seq(keys),
                crate::collections::lists_map(listed, self.resolved@),
                forall|j: int| #![trigger listed[j]] 0 <= j < i ==> listed[j].1 != *addr,
        {
            assert(listed[i as int] == (*rows@[i as int].0, *rows@[i as int].1));
            if same_socket(rows[i].1, addr) {
                let id: NodeId = *rows[i].0;
                proof {
                    crate::collections::increasing_ids(keys);
                    assert forall|other: NodeId| #[trigger]
                        self@.resolved.contains_key(other) && self@.resolved[other]
                            == *addr implies id <= other by {
                        let j = choose|j: int|
                            0 <= j < listed.len() && (#[trigger] listed[j]).0 == other;
                        assert(keys[i as int] == id && keys[j] == other);
                    }
                }
                return Some(id);
            }
        }
        None
    }

    /// Manually drop a peer. Does not add a tombstone: the peer may come back.
    pub fn remove(&mut self, id: NodeId)
        ensures
            final(self)@ == old(self)@.without(id),
            old(self)@.wf() ==> final(self)@.wf(),
    {
        self.resolved.remove(&id);
        assert(self@ == old(self)@.without(id));
    }

    /// Tombstone a peer: drop it, so that it can't be re-added, and forget what was known of
    /// its address.
    pub fn tombstone(&mut self, id: NodeId)
        ensures
            final(self)@ == old(self)@.departed(set![id]),
            old(self)@.wf() ==> final(self)@.wf(),
    {
        let ghost start = self@;
        let ghost gone = set![id].remove(start.self_id);
        let ghost addrs = addresses_of(start.resolved, gone);
        if id == self.self_id {
            proof {
                assert(gone =~= Set::empty());
                assert(addrs =~= Set::empty());
                assert(start.resolved.remove_keys(gone) =~= start.resolved);
                assert(start.failures.remove_keys(addrs) =~= start.failures);
                assert(start.sent.remove_keys(addrs) =~= start.sent);
                assert(start.tombstones.union(gone) =~= start.tombstones);
            }
            return ;
        }
        let taken = self.resolved.remove(&id);
        if let Some(addr) = taken {
            self.failure_counts.remove(&addr);
            self.last_sent.remove(&addr);
            assert(addrs =~= set![addr]) by {
                assert(start.resolved.contains_key(id) && gone.contains(id));
            }
        } else {
            assert(addrs =~= Set::empty());
        }
        self.tombstones.insert(id);
        proof {
            assert(gone =~= set![id]);
            assert(self@.resolved =~= start.resolved.remove_keys(gone));
            assert(self@.failures =~= start.failures.remove_keys(addrs));
            assert(self@.sent =~= start.sent.remove_keys(addrs));
            assert(self@.tombstones =~= start.tombstones.union(gone));
        }
    }

    /// Absorb a batch of tombstones learned via gossip. One of this node itself is ignored.
    pub fn absorb_tombstones(&mut self, incoming: &Vec<NodeId>)
        ensures
            final(self)@ == old(self)@.departed(incoming@.to_set()),
            old(self)@.wf() ==> final(self)@.wf(),
    {
        let ghost start = self@;
        proof {
            assert(incoming@.take(0).to_set() =~= Set::empty());
            nobody_departed(start);
        }
        for i in 0..incoming.len()
            invariant
                self@ == start.departed(incoming@.take(i as int).to_set()),
                start.wf() ==> self@.wf(),
        {
            let id: NodeId = incoming[i];
            self.tombstone(id);
            proof {
                let short = incoming@.take(i as int);
                let long = incoming@.take(i + 1);
                let before = short.to_set();
                let after = long.to_set();
                assert(long =~= short.push(id));
                assert(after =~= before.insert(id)) by {
                    assert forall|x: NodeId| after.contains(x) <==> before.contains(x) || x
                        == id by {
                        if before.contains(x) {
                            let k = choose|k: int| 0 <= k < short.len() && short[k] == x;
                            assert(long[k] == x);
                        }
                        assert(long[short.len() as int] == id);
                        if after.contains(x) && x != id {
                            let k = choose|k: int| 0 <= k < long.len() && long[k] == x;
                            assert(short[k] == x);
                        }
                    }
                }
                departures_add_up(start, before, id);
            }
        }
        assert(incoming@.take(incoming@.len() as int) =~= incoming@);
    }

    /// Record a successful send. Resets the failure counter for this address.
    pub fn mark_success(&mut self, addr: SocketAddress)
        ensures
            final(self)@ == old(self)@.reached(addr),
            old(self)@.wf() ==> final(self)@.wf(),
    {
        self.failure_counts.remove(&addr);
        assert(self@ == old(self)@.reached(addr));
    }

    /// Record a failed send. Returns the node that was tombstoned, if the threshold was hit and
    /// a node is resolved to the address. A bootstrap is silently dropped on the threshold.
    pub fn mark_failure(&mut self, addr: SocketAddress) -> (evicted: Option<NodeId>)
        ensures
            old(self)@.evicts(addr, evicted),
            final(self)@ == old(self)@.missed(addr, evicted),
            old(self)@.wf() ==> final(self)@.wf(),
    {
        let failed: u32 = match self.failure_counts.get(&addr) {
            Some(count) => *count,
            None => 0,
        };
        assert(failed == self@.failures_at(addr));
        if failed < FAILURE_THRESHOLD - 1 {
            self.failure_counts.insert(addr, failed + 1);
            return None;
        }
        self.failure_counts.remove(&addr);
        match self.node_at(&addr) {
            Some(id) => {
                self.tombstone(id);
                Some(id)
            },
            None => {
                self.bootstraps.remove(&addr);
                self.last_sent.remove(&addr);
                None
            },
        }
    }

    /// Snapshot used by each gossip round: the addresses to attempt, the peers to tell of and
    /// the departed.
    pub fn gossip_snapshot(&self) -> (snapshot: (Vec<SocketAddress>, Vec<PeerEntry>, Vec<NodeId>))
        ensures
            is_snapshot(self@, snapshot.0@, snapshot.1@, snapshot.2@),
    {
        let rows = map_entries(&self.resolved);
        let ghost order = rows@.unref();
        let mut targets: Vec<SocketAddress> = Vec::new();
        let mut known: Vec<PeerEntry> = Vec::new();
        let ghost addrs = order.map_values(|row: (NodeId, SocketAddress)| row.1);
        for i in 0..rows.len()
            invariant
                order == rows@.unref(),
                addrs == order.map_values(|row: (NodeId, SocketAddress)| row.1),
                targets@ == addrs.take(i as int),
                known@ == entries_of(order).take(
                    if i < KNOWN_PEERS_CAP {
                        i as int
                    } else {
                        KNOWN_PEERS_CAP as int
                    },
                ),
        {
            let entry = PeerEntry { node_id: *rows[i].0, addr: *rows[i].1 };
            assert(order[i as int] == (entry.node_id, entry.addr));
            targets.push(entry.addr);
            assert(targets@ =~= addrs.take(i + 1));
            if i < KNOWN_PEERS_CAP {
                known.push(entry);
                assert(known@ =~= entries_of(order).take(i + 1));
            }
        }
        assert(addrs.take(addrs.len() as int) =~= addrs);
        let boots = set_elements(&self.bootstraps);
        let ghost boot_order = boots@.unref();
        for i in 0..boots.len()
            invariant
                boot_order == boots@.unref(),
                targets@ == addrs + boot_order.take(i as int),
        {
            targets.push(*boots[i]);
            assert(targets@ =~= addrs + boot_order.take(i + 1));
        }
        assert(boot_order.take(boot_order.len() as int) =~= boot_order);
        let departed = self.known_tombstones();
        assert(crate::collections::lists_map(order, self@.resolved));
        assert(crate::collections::lists_set(boot_order, self@.bootstraps));
        (targets, known, departed)
    }

    /// The resolved peers.
    pub fn known_peers(&self) -> (known: Vec<PeerEntry>)
        ensures
            known@.len() == self@.resolved.dom().len(),
            forall|i: int|
                #![trigger known@[i]]
                0 <= i < known@.len() ==> self@.resolved.contains_key(known@[i].node_id)
                    && self@.resolved[known@[i].node_id] == known@[i].addr,
            forall|i: int, j: int|
                #![trigger known@[i], known@[j]]
                0 <= i < j < known@.len() ==> known@[i].node_id < known@[j].node_id,
            forall|id: NodeId| #[trigger]
                self@.resolved.contains_key(id) ==> exists|i: int|
                    0 <= i < known@.len() && (#[trigger] known@[i]).node_id == id,
    {
        let rows = map_entries(&self.resolved);
        let ghost order = rows@.unref();
        let ghost keys = order.map_values(|row: (NodeId, SocketAddress)| row.0);
        let mut known: Vec<PeerEntry> = Vec::new();
        for i in 0..rows.len()
            invariant
                order == rows@.unref(),
                known@ == entries_of(order).take(i as int),
        {
            known.push(PeerEntry { node_id: *rows[i].0, addr: *rows[i].1 });
            assert(known@ =~= entries_of(order).take(i + 1));
        }
        proof {
            assert(known@ =~= entries_of(order));
            crate::collections::increasing_ids(keys);
            assert forall|i: int, j: int|
                #![trigger known@[i], known@[j]]
                0 <= i < j < known@.len() implies known@[i].node_id < known@[j].node_id by {
                assert(keys[i] == known@[i].node_id && keys[j] == known@[j].node_id);
            }
            assert forall|i: int|
                #![trigger known@[i]]
                0 <= i < known@.len() implies self@.resolved.contains_key(known@[i].node_id)
                && self@.resolved[known@[i].node_id] == known@[i].addr by {
                assert(self@.resolved.contains_key(order[i].0));
            }
            assert forall|id: NodeId| #[trigger] self@.resolved.contains_key(id) implies exists|
                i: int,
            | 0 <= i < known@.len() && (#[trigger] known@[i]).node_id == id by {
                let i = choose|i: int| 0 <= i < order.len() && (#[trigger] order[i]).0 == id;
                assert(known@[i].node_id == id);
            }
        }
        known
    }

    /// The departed nodes.
    pub fn known_tombstones(&self) -> (departed: Vec<NodeId>)
        ensures
            crate::collections::lists_set(departed@, self@.tombstones),
    {
        let rows = set_elements(&self.tombstones);
        let ghost listed = rows@.unref();
        let mut departed: Vec<NodeId> = Vec::new();
        for i in 0..rows.len()
            invariant
                listed == rows@.unref(),
                departed@ == listed.take(i as int),
        {
            departed.push(*rows[i]);
            assert(departed@ =~= listed.take(i + 1));
        }
        assert(departed@ =~= listed);
        departed
    }
}

/// Where nobody departs, nothing changes.
proof fn nobody_departed<V>(peers: Peers<V>)
    ensures
        peers.departed(Set::empty()) == peers,
{
    let gone = Set::<NodeId>::empty().remove(peers.self_id);
    let addrs = addresses_of(peers.resolved, gone);
    assert(gone =~= Set::empty());
    assert(addrs =~= Set::empty());
    assert(peers.resolved.remove_keys(gone) =~= peers.resolved);
    assert(peers.failures.remove_keys(addrs) =~= peers.failures);
    assert(peers.sent.remove_keys(addrs) =~= peers.sent);
    assert(peers.tombstones.union(gone) =~= peers.tombstones);
}

/// It makes no difference whether nodes depart together or one after the other.
proof fn departures_add_up<V>(peers: Peers<V>, ids: Set<NodeId>, id: NodeId)
    ensures
        peers.departed(ids).departed(set![id]) == peers.departed(ids.insert(id)),
{
    let first = peers.departed(ids);
    let both = first.departed(set![id]);
    let once = peers.departed(ids.insert(id));
    let gone = ids.remove(peers.self_id);
    let one = set![id].remove(peers.self_id);
    let all = ids.insert(id).remove(peers.self_id);
    assert(all =~= gone.union(one));
    let addrs = addresses_of(peers.resolved, gone);
    let more = addresses_of(first.resolved, one);
    let every = addresses_of(peers.resolved, all);
    assert forall|addr: SocketAddress| every.contains(addr) <==> addrs.contains(addr)
        || more.contains(addr) by {
        if addrs.contains(addr) {
            let n = choose|n: NodeId| #[trigger]
                peers.resolved.contains_key(n) && gone.contains(n) && peers.resolved[n] == addr;
            assert(all.contains(n));
        }
        if more.contains(addr) {
            let n = choose|n: NodeId| #[trigger]
                first.resolved.contains_key(n) && one.contains(n) && first.resolved[n] == addr;
            assert(peers.resolved.contains_key(n) && all.contains(n));
        }
        if every.contains(addr) {
            let n = choose|n: NodeId| #[trigger]
                peers.resolved.contains_key(n) && all.contains(n) && peers.resolved[n] == addr;
            if !gone.contains(n) {
                assert(first.resolved.contains_key(n) && one.contains(n));
            }
        }
    }
    assert(both.resolved =~= once.resolved);
    assert(both.failures =~= once.failures);
    assert(both.sent =~= once.sent);
    assert(both.tombstones =~= once.tombstones);
}

} // verus!

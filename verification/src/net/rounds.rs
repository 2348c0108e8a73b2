//! What a node sends in a round, to whom, and what it learns from around it.
use super::addr::{IpAddress, SocketAddress};
use super::config::{advertised, GossipConfig, DEFAULT_INTERVAL};
use super::discovery::{discovered, is_first_label, preferred, property_id, DiscoveryEvent};
use super::engine::{carries, picked_from, tells, GossipEngine, Outgoing};
use super::membership::{added_peer_is_known, removal_forgets_one_peer};
use super::message::{framed, length_of, GossipMessage, PeerEntry, MAX_FRAME};
use super::registry::{entries_of, is_snapshot, Peers};
use crate::traits::{Crdt, DeltaCrdt};
use crate::NodeId;
use vstd::prelude::*;

verus! {

/// The numbers of the protocol.
pub proof fn protocol_numbers()
    ensures
        super::engine::FANOUT == 2,
        super::engine::GOODBYE_FANOUT == 4,
        super::engine::MAX_CONCURRENT_CONNECTIONS == 64,
        super::registry::KNOWN_PEERS_CAP == 64,
        super::registry::FAILURE_THRESHOLD == 10,
        MAX_FRAME == 16 * 1024 * 1024,
        DEFAULT_INTERVAL == (5u64, 0u32),
        super::addr::LOCALHOST == (4u8, 0x7f000001u128),
{
}

/// The targets of a round are the addresses of the peers and the bootstraps: every one of them,
/// and nothing else, one target for each peer and one for each bootstrap.
pub proof fn everyone_is_a_target<V>(
    peers: Peers<V>,
    targets: Seq<SocketAddress>,
    known: Seq<PeerEntry>,
    departed: Seq<NodeId>,
)
    requires
        is_snapshot(peers, targets, known, departed),
    ensures
        targets.len() == peers.resolved.dom().len() + peers.bootstraps.len(),
        forall|id: NodeId| #[trigger]
            peers.resolved.contains_key(id) ==> targets.contains(peers.resolved[id]),
        forall|addr: SocketAddress| #[trigger]
            peers.bootstraps.contains(addr) ==> targets.contains(addr),
        forall|addr: SocketAddress| #[trigger]
            targets.contains(addr) ==> peers.bootstraps.contains(addr) || exists|id: NodeId|
                #[trigger] peers.resolved.contains_key(id) && peers.resolved[id] == addr,
{
    let (order, boots) = choose|order: Seq<(NodeId, SocketAddress)>, boots: Seq<SocketAddress>|
        {
            &&& #[trigger] crate::collections::lists_map(order, peers.resolved)
            &&& #[trigger] crate::collections::lists_set(boots, peers.bootstraps)
            &&& targets == order.map_values(|row: (NodeId, SocketAddress)| row.1) + boots
        };
    assert forall|id: NodeId| #[trigger] peers.resolved.contains_key(id) implies targets.contains(
        peers.resolved[id],
    ) by {
        let i = choose|i: int| 0 <= i < order.len() && (#[trigger] order[i]).0 == id;
        assert(targets[i] == order[i].1);
    }
    assert forall|addr: SocketAddress| #[trigger] peers.bootstraps.contains(addr) implies
        targets.contains(addr) by {
        let i = choose|i: int| 0 <= i < boots.len() && #[trigger] boots[i] == addr;
        assert(targets[order.len() + i] == addr);
    }
    assert forall|addr: SocketAddress| #[trigger] targets.contains(addr) implies
        peers.bootstraps.contains(addr) || exists|id: NodeId| #[trigger]
        peers.resolved.contains_key(id) && peers.resolved[id] == addr by {
        let k = choose|k: int| 0 <= k < targets.len() && targets[k] == addr;
        if k < order.len() {
            assert(order[k].1 == addr);
            assert(peers.resolved.contains_key(order[k].0));
        } else {
            assert(boots[k - order.len()] == addr);
        }
    }
}

/// A message tells of the peers at their addresses, of none twice, and of all of them where there
/// are no more than 64, else of 64; and of exactly the departed, of none twice.
pub proof fn everyone_is_told_of<V>(
    peers: Peers<V>,
    targets: Seq<SocketAddress>,
    known: Seq<PeerEntry>,
    departed: Seq<NodeId>,
)
    requires
        is_snapshot(peers, targets, known, departed),
    ensures
        known.len() == if peers.resolved.dom().len() <= 64 {
            peers.resolved.dom().len()
        } else {
            64
        },
        forall|i: int|
            #![trigger known[i]]
            0 <= i < known.len() ==> peers.resolved.contains_key(known[i].node_id)
                && peers.resolved[known[i].node_id] == known[i].addr,
        forall|i: int, j: int|
            #![trigger known[i], known[j]]
            0 <= i < j < known.len() ==> known[i].node_id != known[j].node_id,
        peers.resolved.dom().len() <= 64 ==> forall|id: NodeId| #[trigger]
            peers.resolved.contains_key(id) ==> exists|i: int|
                0 <= i < known.len() && (#[trigger] known[i]).node_id == id,
        forall|id: NodeId| #[trigger] departed.contains(id) <==> peers.tombstones.contains(id),
        departed.no_duplicates(),
{
    let (order, boots) = choose|order: Seq<(NodeId, SocketAddress)>, boots: Seq<SocketAddress>|
        {
            &&& #[trigger] crate::collections::lists_map(order, peers.resolved)
            &&& #[trigger] crate::collections::lists_set(boots, peers.bootstraps)
            &&& targets == order.map_values(|row: (NodeId, SocketAddress)| row.1) + boots
            &&& known == entries_of(order).take(
                if order.len() < super::registry::KNOWN_PEERS_CAP {
                    order.len() as int
                } else {
                    super::registry::KNOWN_PEERS_CAP as int
                },
            )
            &&& crate::collections::lists_set(departed, peers.tombstones)
        };
    assert forall|i: int| 0 <= i < known.len() implies #[trigger] known[i] == (PeerEntry {
        node_id: order[i].0,
        addr: order[i].1,
    }) by {}
    assert forall|i: int, j: int|
        #![trigger known[i], known[j]]
        0 <= i < j < known.len() implies known[i].node_id != known[j].node_id by {
        assert(order[i].0 != order[j].0);
    }
    if peers.resolved.dom().len() <= 64 {
        assert forall|id: NodeId| #[trigger] peers.resolved.contains_key(id) implies exists|i: int|
            0 <= i < known.len() && (#[trigger] known[i]).node_id == id by {
            let i = choose|i: int| 0 <= i < order.len() && (#[trigger] order[i]).0 == id;
            assert(known[i].node_id == id);
        }
    }
    assert forall|id: NodeId| #[trigger] departed.contains(id) <==> peers.tombstones.contains(
        id,
    ) by {
        if departed.contains(id) {
            let k = choose|k: int| 0 <= k < departed.len() && departed[k] == id;
            assert(peers.tombstones.contains(departed[k]));
        }
        if peers.tombstones.contains(id) {
            let k = choose|k: int| 0 <= k < departed.len() && #[trigger] departed[k] == id;
            assert(departed.contains(id));
        }
    }
}

/// Those that are picked are among the targets, as many as asked for or all where there are fewer,
/// and none twice where no target is there twice.
pub proof fn picked_are_some_targets(
    targets: Seq<SocketAddress>,
    chosen: Seq<SocketAddress>,
    amount: nat,
)
    requires
        picked_from(targets, chosen, amount),
    ensures
        chosen.len() <= amount,
        chosen.len() <= targets.len(),
        chosen.len() == amount || chosen.len() == targets.len(),
        forall|addr: SocketAddress| #[trigger] chosen.contains(addr) ==> targets.contains(addr),
        targets.no_duplicates() ==> chosen.no_duplicates(),
{
    chosen.to_multiset_ensures();
    targets.to_multiset_ensures();
    assert forall|addr: SocketAddress| #[trigger] chosen.contains(addr) implies targets.contains(
        addr,
    ) by {
        assert(chosen.to_multiset().count(addr) > 0);
        assert(targets.to_multiset().count(addr) > 0);
    }
    if targets.no_duplicates() {
        targets.lemma_multiset_has_no_duplicates();
        assert forall|addr: SocketAddress| chosen.to_multiset().contains(addr) implies
            chosen.to_multiset().count(addr) == 1 by {
            assert(chosen.to_multiset().count(addr) <= targets.to_multiset().count(addr));
            assert(targets.to_multiset().contains(addr));
        }
        chosen.lemma_multiset_has_no_duplicates_conv();
    }
}

/// Who a message is from, whom it tells of and who has departed by it, for each kind of message.
pub proof fn what_a_message_tells<T: DeltaCrdt>(
    message: GossipMessage<T>,
    from: PeerEntry,
    known: Seq<PeerEntry>,
    departed: Seq<NodeId>,
)
    requires
        tells(message, from, known, departed),
    ensures
        match message {
            GossipMessage::Sync { from: f, state, known_peers, departed: d } => f == from
                && known_peers@ == known && d@ == departed,
            GossipMessage::SyncDelta { from: f, delta, since, known_peers, departed: d } => f
                == from && known_peers@ == known && d@ == departed,
            GossipMessage::Goodbye { from: f, departed: d, known_peers } => f == from
                && known_peers@ == known && d@ == departed,
        },
{
}

/// A round of gossip: one message to each of two targets, or to all where there are fewer. Each
/// goes to a peer or a bootstrap; says that it is from this node, at the address that the node
/// advertises; carries the whole state where nothing has been delivered to the address yet, and
/// else what changed since the version that was delivered last, with that version; and brings the
/// receiver to the version of the state.
pub proof fn what_a_round_sends<T: DeltaCrdt>(
    engine: GossipEngine<T>,
    state: T::V,
    outgoing: Seq<Outgoing<T>>,
    i: int,
)
    requires
        T::lawful(),
        engine.is_round(state, outgoing),
        0 <= i < outgoing.len(),
    ensures
        ({
            let peers = engine.registry@;
            let addr = outgoing[i].addr;
            let from = PeerEntry { node_id: engine.self_id, addr: engine.advertise_addr };
            &&& peers.bootstraps.contains(addr) || exists|id: NodeId| #[trigger]
                peers.resolved.contains_key(id) && peers.resolved[id] == addr
            &&& T::version_model(outgoing[i].version) == T::version_of(state)
            &&& match outgoing[i].message {
                GossipMessage::Sync { from: f, state: s, known_peers, departed } => {
                    &&& f == from
                    &&& !peers.sent.contains_key(addr)
                    &&& s@ == state
                    &&& tells_all(peers, known_peers@, departed@)
                },
                GossipMessage::SyncDelta { from: f, delta, since, known_peers, departed } => {
                    &&& f == from
                    &&& peers.sent.contains_key(addr)
                    &&& T::version_model(since) == T::version_model(peers.sent[addr])
                    &&& T::delta_model(delta) == T::delta_of(state, T::version_model(since))
                    &&& tells_all(peers, known_peers@, departed@)
                },
                GossipMessage::Goodbye { from, departed, known_peers } => false,
            }
        }),
{
    let (targets, known, departed) = choose|
        targets: Seq<SocketAddress>,
        known: Seq<PeerEntry>,
        departed: Seq<NodeId>,
    |
        {
            &&& #[trigger] is_snapshot(engine.registry@, targets, known, departed)
            &&& picked_from(
                targets,
                outgoing.map_values(|out: Outgoing<T>| out.addr),
                super::engine::FANOUT as nat,
            )
            &&& forall|i: int|
                #![trigger outgoing[i]]
                0 <= i < outgoing.len() ==> engine.is_message_to(
                    outgoing[i].addr,
                    state,
                    known,
                    departed,
                    outgoing[i],
                )
        };
    let chosen = outgoing.map_values(|out: Outgoing<T>| out.addr);
    everyone_is_a_target(engine.registry@, targets, known, departed);
    everyone_is_told_of(engine.registry@, targets, known, departed);
    picked_are_some_targets(targets, chosen, super::engine::FANOUT as nat);
    assert(chosen[i] == outgoing[i].addr);
    assert(chosen.contains(outgoing[i].addr));
    assert(engine.is_message_to(outgoing[i].addr, state, known, departed, outgoing[i]));
}

/// The lists tell of the peers, up to 64 of them, and of all the departed.
pub open spec fn tells_all<V>(
    peers: Peers<V>,
    known: Seq<PeerEntry>,
    departed: Seq<NodeId>,
) -> bool {
    &&& known.len() == if peers.resolved.dom().len() <= 64 {
        peers.resolved.dom().len()
    } else {
        64
    }
    &&& forall|i: int|
        #![trigger known[i]]
        0 <= i < known.len() ==> peers.resolved.contains_key(known[i].node_id)
            && peers.resolved[known[i].node_id] == known[i].addr
    &&& forall|i: int, j: int|
        #![trigger known[i], known[j]]
        0 <= i < j < known.len() ==> known[i].node_id != known[j].node_id
    &&& forall|id: NodeId| #[trigger] departed.contains(id) <==> peers.tombstones.contains(id)
}

/// A round reaches two targets, or all where there are fewer.
pub proof fn round_reaches_two<T: DeltaCrdt>(
    engine: GossipEngine<T>,
    state: T::V,
    outgoing: Seq<Outgoing<T>>,
)
    requires
        engine.is_round(state, outgoing),
    ensures
        outgoing.len() == if engine.registry@.resolved.dom().len()
            + engine.registry@.bootstraps.len() >= 2 {
            2
        } else {
            engine.registry@.resolved.dom().len() + engine.registry@.bootstraps.len()
        },
{
    let (targets, known, departed) = choose|
        targets: Seq<SocketAddress>,
        known: Seq<PeerEntry>,
        departed: Seq<NodeId>,
    |
        {
            &&& #[trigger] is_snapshot(engine.registry@, targets, known, departed)
            &&& picked_from(
                targets,
                outgoing.map_values(|out: Outgoing<T>| out.addr),
                super::engine::FANOUT as nat,
            )
        };
    everyone_is_a_target(engine.registry@, targets, known, departed);
    picked_are_some_targets(
        targets,
        outgoing.map_values(|out: Outgoing<T>| out.addr),
        super::engine::FANOUT as nat,
    );
}

/// What a message carries: the whole state exactly where nothing was sent to the address yet.
pub proof fn what_a_message_carries<T: DeltaCrdt>(
    message: GossipMessage<T>,
    sent: Map<SocketAddress, T::Version>,
    addr: SocketAddress,
    state: T::V,
)
    requires
        carries(message, sent, addr, state),
    ensures
        match message {
            GossipMessage::Sync { from, state: s, known_peers, departed } => !sent.contains_key(
                addr,
            ) && s@ == state,
            GossipMessage::SyncDelta { from, delta, since, known_peers, departed } => {
                &&& sent.contains_key(addr)
                &&& T::version_model(since) == T::version_model(sent[addr])
                &&& T::delta_model(delta) == T::delta_of(state, T::version_model(sent[addr]))
            },
            GossipMessage::Goodbye { from, departed, known_peers } => false,
        },
{
}

/// The message to an address goes to that address, is from this node, tells what it is given to
/// tell, carries what the address is owed, and brings the receiver to the version of the state.
pub proof fn message_is_addressed<T: DeltaCrdt>(
    engine: GossipEngine<T>,
    addr: SocketAddress,
    state: T::V,
    known: Seq<PeerEntry>,
    departed: Seq<NodeId>,
    out: Outgoing<T>,
)
    requires
        T::lawful(),
        engine.is_message_to(addr, state, known, departed, out),
    ensures
        out.addr == addr,
        tells(
            out.message,
            (PeerEntry { node_id: engine.self_id, addr: engine.advertise_addr }),
            known,
            departed,
        ),
        carries(out.message, engine.registry@.sent, addr, state),
        T::version_model(out.version) == T::version_of(state),
{
}

/// An engine that keeps its invariant keeps that of its registry, which knows the node and the
/// address that it advertises as its own.
pub proof fn engine_invariant<T: DeltaCrdt>(engine: GossipEngine<T>, other: GossipEngine<T>)
    ensures
        engine.wf() <==> engine.registry@.wf() && engine.registry@.self_id == engine.self_id
            && engine.registry@.self_addr == engine.advertise_addr,
        engine.same_node(other) <==> engine.self_id == other.self_id && engine.local_addr
            == other.local_addr && engine.advertise_addr == other.advertise_addr && engine.running
            == other.running,
{
}

/// A frame is the length of its body in four bytes, the most significant first, and the body.
pub proof fn frame_layout(body: Seq<u8>)
    requires
        body.len() <= MAX_FRAME,
    ensures
        framed(body).len() == 4 + body.len(),
        framed(body)[0] * 16777216 + framed(body)[1] * 65536 + framed(body)[2] * 256 + framed(
            body,
        )[3] == body.len(),
        forall|i: int| 0 <= i < body.len() ==> #[trigger] body[i] == framed(body)[4 + i],
{
    super::message::frame_round_trip(body, Seq::empty());
    let n = body.len() as u32;
    assert(framed(body)[0] == (n / 16777216) as u8);
    assert(framed(body)[1] == (n / 65536 % 256) as u8);
    assert(framed(body)[2] == (n / 256 % 256) as u8);
    assert(framed(body)[3] == (n % 256) as u8);
}

/// The length that four bytes stand for: each byte counts 256 times what the next one does.
pub proof fn length_reads_bytes(header: Seq<u8>)
    requires
        header.len() >= 4,
    ensures
        length_of(header) == ((header[0] * 256 + header[1]) * 256 + header[2]) * 256 + header[3],
{
}

/// The first version 4 address is preferred, and the first address where there is none.
pub proof fn version_four_is_preferred(addresses: Seq<IpAddress>, ip: IpAddress, i: int)
    requires
        preferred(addresses, Some(ip)),
        0 <= i < addresses.len(),
    ensures
        addresses.contains(ip),
        addresses[i].0 == 4 ==> ip.0 == 4,
        addresses[i].0 == 4 && (forall|j: int| 0 <= j < i ==> (#[trigger] addresses[j]).0 != 4)
            ==> ip == addresses[i],
        (forall|j: int| 0 <= j < addresses.len() ==> (#[trigger] addresses[j]).0 != 4) ==> ip
            == addresses[0],
{
}

/// No address is preferred only where there is none.
pub proof fn some_address_is_preferred(addresses: Seq<IpAddress>)
    ensures
        preferred(addresses, None) <==> addresses.len() == 0,
{
}

/// A service that was found makes its node a peer at its preferred address and its port, with the
/// exceptions that hold for every peer that is added. All else stays as it was.
pub proof fn found_service_is_a_peer<V>(
    before: Peers<V>,
    self_id: NodeId,
    node_id: Option<String>,
    port: u16,
    addresses: Vec<IpAddress>,
    after: Peers<V>,
    id: NodeId,
)
    requires
        discovered(
            before,
            self_id,
            DiscoveryEvent::ServiceResolved { node_id, port, addresses },
            after,
        ),
        node_id is Some,
        crate::text::parsed_uuid(node_id->0@) == Some(id),
        id != self_id,
        id != before.self_id,
        !before.tombstones.contains(id),
        addresses@.len() > 0,
    ensures
        forall|other: NodeId|
            other != id ==> (#[trigger] after.resolved.contains_key(other)
                <==> before.resolved.contains_key(other)),
        forall|other: NodeId|
            other != id && #[trigger] after.resolved.contains_key(other) ==> after.resolved[other]
                == before.resolved[other],
        after.tombstones == before.tombstones,
        after.failures == before.failures,
        after.sent == before.sent,
        after == before || (after.resolved.contains_key(id) && after.resolved[id].1 == port
            && preferred(addresses@, Some(after.resolved[id].0)) && after.resolved[id].2 == 0
            && after.resolved[id].3 == 0),
        (forall|ip: IpAddress| #[trigger]
            preferred(addresses@, Some(ip)) ==> before.self_addr != (ip, port, 0u32, 0u32))
            ==> after.resolved.contains_key(id) && after.resolved[id].1 == port && preferred(
            addresses@,
            Some(after.resolved[id].0),
        ),
{
    let ip = choose|ip: IpAddress|
        #[trigger] preferred(addresses@, Some(ip)) && after == before.with_resolved(
            id,
            super::addr::spec_socket(ip, port),
        );
    added_peer_is_known(before, id, super::addr::spec_socket(ip, port));
}

/// A service that was found is one peer that is added, at its preferred address and its port, like
/// any other: a node that has departed stays departed.
pub proof fn found_service_is_added<V>(
    before: Peers<V>,
    self_id: NodeId,
    node_id: Option<String>,
    port: u16,
    addresses: Vec<IpAddress>,
    after: Peers<V>,
    id: NodeId,
) -> (ip: IpAddress)
    requires
        discovered(
            before,
            self_id,
            DiscoveryEvent::ServiceResolved { node_id, port, addresses },
            after,
        ),
        node_id is Some,
        crate::text::parsed_uuid(node_id->0@) == Some(id),
        id != self_id,
        addresses@.len() > 0,
    ensures
        preferred(addresses@, Some(ip)),
        after == before.with_resolved(id, (ip, port, 0, 0)),
        after.tombstones == before.tombstones,
        before.tombstones.contains(id) ==> after == before,
{
    let ip = choose|ip: IpAddress|
        #[trigger] preferred(addresses@, Some(ip)) && after == before.with_resolved(
            id,
            super::addr::spec_socket(ip, port),
        );
    added_peer_is_known(before, id, super::addr::spec_socket(ip, port));
    ip
}

/// A service that names this node, no node, or no address, and anything else that is observed,
/// changes nothing.
pub proof fn other_services_are_ignored<V>(
    before: Peers<V>,
    self_id: NodeId,
    node_id: Option<String>,
    port: u16,
    addresses: Vec<IpAddress>,
    after: Peers<V>,
)
    ensures
        discovered(
            before,
            self_id,
            DiscoveryEvent::ServiceResolved { node_id, port, addresses },
            after,
        ) && (node_id is None || crate::text::parsed_uuid(node_id->0@) is None
            || crate::text::parsed_uuid(node_id->0@) == Some(self_id) || addresses@.len() == 0)
            ==> after == before,
        discovered(before, self_id, DiscoveryEvent::Other, after) ==> after == before,
{
    assert(node_id is Some ==> property_id(node_id) == crate::text::parsed_uuid(node_id->0@));
}

/// A service that is gone takes its node from the peers, without a tombstone, unless it is this
/// node. All else stays as it was.
pub proof fn gone_service_is_no_peer<V>(
    before: Peers<V>,
    self_id: NodeId,
    fullname: String,
    after: Peers<V>,
    label: Seq<char>,
)
    requires
        discovered(before, self_id, DiscoveryEvent::ServiceRemoved { fullname }, after),
        is_first_label(fullname@, label),
    ensures
        ({
            let id = crate::text::parsed_uuid(label);
            &&& id is None || id == Some(self_id) ==> after == before
            &&& id is Some && id != Some(self_id) ==> !after.resolved.contains_key(id->0)
            &&& forall|other: NodeId|
                id != Some(other) ==> (#[trigger] after.resolved.contains_key(other)
                    <==> before.resolved.contains_key(other))
            &&& forall|other: NodeId| #[trigger]
                after.resolved.contains_key(other) ==> after.resolved[other]
                    == before.resolved[other]
            &&& after.tombstones == before.tombstones
            &&& after.bootstraps == before.bootstraps
            &&& after.failures == before.failures
            &&& after.sent == before.sent
        }),
{
    let found = choose|found: Seq<char>|
        {
            &&& #[trigger] is_first_label(fullname@, found)
            &&& after == match crate::text::parsed_uuid(found) {
                Some(id) => if id == self_id {
                    before
                } else {
                    before.without(id)
                },
                None => before,
            }
        };
    one_first_label(fullname@, found, label);
    if let Some(id) = crate::text::parsed_uuid(label) {
        removal_forgets_one_peer(before, id);
    }
}

/// A name has one first label: what is before its first dot, or all of it.
pub proof fn one_first_label(name: Seq<char>, a: Seq<char>, b: Seq<char>)
    requires
        is_first_label(name, a),
        is_first_label(name, b),
    ensures
        a == b,
        !a.contains('.'),
        a.is_prefix_of(name),
        a == name || name[a.len() as int] == '.',
{
    if a.len() < b.len() {
        assert(b[a.len() as int] == name[a.len() as int]);
    }
    if b.len() < a.len() {
        assert(a[b.len() as int] == name[b.len() as int]);
    }
    assert(a =~= b);
    if a.len() == name.len() {
        assert(a =~= name);
    }
}

/// A configured address is advertised as it is. Without one it is the address that the node
/// listens at, with the port that was bound; where that address is a wildcard, the address of the
/// host with that port, or the loopback address where that is not known.
pub proof fn what_is_advertised(
    config: GossipConfig,
    bound: SocketAddress,
    local_ip: Option<IpAddress>,
)
    ensures
        config.advertise_addr is Some ==> advertised(config, bound, local_ip)
            == config.advertise_addr->0,
        config.advertise_addr is None ==> {
            let addr = advertised(config, bound, local_ip);
            &&& addr.1 == bound.1
            &&& addr.2 == 0 && addr.3 == 0
            &&& config.gossip_addr.0.1 != 0 ==> addr.0 == config.gossip_addr.0
            &&& config.gossip_addr.0.1 == 0 && local_ip is Some ==> addr.0 == local_ip->0
            &&& config.gossip_addr.0.1 == 0 && local_ip is None ==> addr.0 == (4u8, 0x7f000001u128)
        },
{
}

} // verus!

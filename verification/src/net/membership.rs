//! What becomes of each peer, address and count when a registry changes.
use super::addr::SocketAddress;
use super::laws::{event_keeps_invariant, PeerEvent};
use super::message::PeerEntry;
use super::registry::{Peers, FAILURE_THRESHOLD};
use crate::NodeId;
use vstd::prelude::*;

verus! {

/// A node that knows nobody has no peers, no bootstraps, no departed, and has sent nothing.
pub proof fn lonely_knows_nobody<V>(self_id: NodeId, self_addr: SocketAddress)
    ensures
        ({
            let peers = Peers::<V>::lonely(self_id, self_addr);
            &&& peers.self_id == self_id
            &&& peers.self_addr == self_addr
            &&& forall|id: NodeId| !#[trigger] peers.resolved.contains_key(id)
            &&& forall|addr: SocketAddress| !#[trigger] peers.bootstraps.contains(addr)
            &&& forall|id: NodeId| !#[trigger] peers.tombstones.contains(id)
            &&& forall|addr: SocketAddress| !#[trigger] peers.failures.contains_key(addr)
            &&& forall|addr: SocketAddress| !#[trigger] peers.sent.contains_key(addr)
        }),
{
}

/// A peer that is added is known at its address from then on, which is no bootstrap any more; this
/// node itself, its own address and a departed node are ignored. Nothing else changes.
pub proof fn added_peer_is_known<V>(peers: Peers<V>, id: NodeId, addr: SocketAddress)
    ensures
        ({
            let after = peers.with_resolved(id, addr);
            let welcome = id != peers.self_id && addr != peers.self_addr
                && !peers.tombstones.contains(id);
            &&& welcome ==> after.resolved.contains_key(id) && after.resolved[id] == addr
            &&& welcome ==> !after.bootstraps.contains(addr)
            &&& !welcome ==> after == peers
            &&& forall|other: NodeId|
                other != id ==> (#[trigger] after.resolved.contains_key(other)
                    <==> peers.resolved.contains_key(other))
            &&& forall|other: NodeId|
                other != id && #[trigger] after.resolved.contains_key(other)
                    ==> after.resolved[other] == peers.resolved[other]
            &&& forall|other: SocketAddress|
                other != addr ==> (#[trigger] after.bootstraps.contains(other)
                    <==> peers.bootstraps.contains(other))
            &&& after.self_id == peers.self_id
            &&& after.self_addr == peers.self_addr
            &&& after.tombstones == peers.tombstones
            &&& after.failures == peers.failures
            &&& after.sent == peers.sent
        }),
{
}

/// Adding a bootstrap address keeps every bootstrap address there was. The new one is a bootstrap
/// unless it is this node's own or that of a peer. Nothing else changes.
pub proof fn bootstraps_accumulate<V>(peers: Peers<V>, addr: SocketAddress)
    ensures
        ({
            let after = peers.with_bootstrap(addr);
            let taken = addr == peers.self_addr || exists|id: NodeId| #[trigger]
                peers.resolved.contains_key(id) && peers.resolved[id] == addr;
            &&& forall|other: SocketAddress|
                other != addr ==> (#[trigger] after.bootstraps.contains(other)
                    <==> peers.bootstraps.contains(other))
            &&& after.bootstraps.contains(addr) <==> !taken || peers.bootstraps.contains(addr)
            &&& after.self_id == peers.self_id
            &&& after.self_addr == peers.self_addr
            &&& after.resolved == peers.resolved
            &&& after.tombstones == peers.tombstones
            &&& after.failures == peers.failures
            &&& after.sent == peers.sent
        }),
{
}

/// After a list of addresses was added, each of them that is not this node's own and not that of
/// a peer is a bootstrap, so is every earlier one, and no other is. Nothing else changes.
pub proof fn listed_bootstraps_accumulate<V>(peers: Peers<V>, addrs: Seq<SocketAddress>)
    ensures
        ({
            let after = peers.with_all_bootstraps(addrs);
            &&& forall|addr: SocketAddress| #[trigger]
                after.bootstraps.contains(addr) <==> peers.bootstraps.contains(addr) || (
                addrs.contains(addr) && addr != peers.self_addr && !(exists|id: NodeId| #[trigger]
                    peers.resolved.contains_key(id) && peers.resolved[id] == addr))
            &&& after.self_id == peers.self_id
            &&& after.self_addr == peers.self_addr
            &&& after.resolved == peers.resolved
            &&& after.tombstones == peers.tombstones
            &&& after.failures == peers.failures
            &&& after.sent == peers.sent
        }),
    decreases addrs.len(),
{
    if addrs.len() > 0 {
        let rest = addrs.drop_last();
        let before = peers.with_all_bootstraps(rest);
        listed_bootstraps_accumulate(peers, rest);
        bootstraps_accumulate(before, addrs.last());
        assert forall|addr: SocketAddress| addrs.contains(addr) <==> rest.contains(addr) || addr
            == addrs.last() by {
            if addrs.contains(addr) {
                let i = choose|i: int| 0 <= i < addrs.len() && addrs[i] == addr;
                if i < rest.len() {
                    assert(rest[i] == addr);
                }
            }
            if rest.contains(addr) {
                let i = choose|i: int| 0 <= i < rest.len() && rest[i] == addr;
                assert(addrs[i] == addr);
            }
            assert(addrs[addrs.len() - 1] == addrs.last());
        }
    }
}

/// A node that is removed is no peer any more. Every other peer stays where it was, and nothing
/// else changes; in particular the node is not counted among the departed.
pub proof fn removal_forgets_one_peer<V>(peers: Peers<V>, id: NodeId)
    ensures
        ({
            let after = peers.without(id);
            &&& !after.resolved.contains_key(id)
            &&& forall|other: NodeId|
                other != id ==> (#[trigger] after.resolved.contains_key(other)
                    <==> peers.resolved.contains_key(other))
            &&& forall|other: NodeId| #[trigger]
                after.resolved.contains_key(other) ==> after.resolved[other]
                    == peers.resolved[other]
            &&& after.self_id == peers.self_id
            &&& after.self_addr == peers.self_addr
            &&& after.bootstraps == peers.bootstraps
            &&& after.tombstones == peers.tombstones
            &&& after.failures == peers.failures
            &&& after.sent == peers.sent
        }),
{
}

/// Nodes that have departed are tombstoned and no peers any more, but for this node itself. Every
/// other peer stays, so do all earlier tombstones, and no other node is tombstoned. The failure
/// counts and the sent versions of the addresses of the departed are forgotten, and of those only.
pub proof fn departure_is_of_those_named<V>(peers: Peers<V>, ids: Set<NodeId>)
    ensures
        ({
            let after = peers.departed(ids);
            &&& forall|id: NodeId| #[trigger]
                after.tombstones.contains(id) <==> peers.tombstones.contains(id) || (ids.contains(
                    id,
                ) && id != peers.self_id)
            &&& forall|id: NodeId| #[trigger]
                after.resolved.contains_key(id) <==> peers.resolved.contains_key(id) && (
                !ids.contains(id) || id == peers.self_id)
            &&& forall|id: NodeId| #[trigger]
                after.resolved.contains_key(id) ==> after.resolved[id] == peers.resolved[id]
            &&& forall|addr: SocketAddress| #[trigger]
                after.failures.contains_key(addr) <==> peers.failures.contains_key(addr)
                    && !departs_from(peers, ids, addr)
            &&& forall|addr: SocketAddress| #[trigger]
                after.failures.contains_key(addr) ==> after.failures[addr] == peers.failures[addr]
            &&& forall|addr: SocketAddress| #[trigger]
                after.sent.contains_key(addr) <==> peers.sent.contains_key(addr) && !departs_from(
                    peers,
                    ids,
                    addr,
                )
            &&& forall|addr: SocketAddress| #[trigger]
                after.sent.contains_key(addr) ==> after.sent[addr] == peers.sent[addr]
            &&& after.self_id == peers.self_id
            &&& after.self_addr == peers.self_addr
            &&& after.bootstraps == peers.bootstraps
        }),
{
}

/// One of the nodes, other than this node, is a peer at the address.
pub open spec fn departs_from<V>(peers: Peers<V>, ids: Set<NodeId>, addr: SocketAddress) -> bool {
    exists|id: NodeId| #[trigger]
        peers.resolved.contains_key(id) && peers.resolved[id] == addr && ids.contains(id) && id
            != peers.self_id
}

/// A node departs from an address exactly where it is a peer there and is not this node.
pub proof fn departs_from_its_address<V>(
    peers: Peers<V>,
    ids: Set<NodeId>,
    addr: SocketAddress,
    id: NodeId,
)
    ensures
        peers.resolved.contains_key(id) && peers.resolved[id] == addr && ids.contains(id) && id
            != peers.self_id ==> departs_from(peers, ids, addr),
        (forall|other: NodeId| #[trigger]
            peers.resolved.contains_key(other) && peers.resolved[other] == addr ==> !ids.contains(
                other,
            ) || other == peers.self_id) ==> !departs_from(peers, ids, addr),
{
}

/// A delivery is remembered for its address: the version, and that no send there has failed since.
/// The failure counts and versions of every other address stay as they were, and so does
/// everything else.
pub proof fn delivery_touches_one_address<V>(peers: Peers<V>, addr: SocketAddress, version: V)
    ensures
        ({
            let after = peers.reached(addr).with_sent(addr, version);
            &&& !peers.reached(addr).failures.contains_key(addr)
            &&& peers.reached(addr).sent == peers.sent
            &&& peers.with_sent(addr, version).failures == peers.failures
            &&& !after.failures.contains_key(addr)
            &&& after.sent.contains_key(addr)
            &&& after.sent[addr] == version
            &&& forall|other: SocketAddress|
                other != addr ==> (#[trigger] after.failures.contains_key(other)
                    <==> peers.failures.contains_key(other))
            &&& forall|other: SocketAddress|
                other != addr && #[trigger] after.failures.contains_key(other)
                    ==> after.failures[other] == peers.failures[other]
            &&& forall|other: SocketAddress|
                other != addr ==> (#[trigger] after.sent.contains_key(other)
                    <==> peers.sent.contains_key(other))
            &&& forall|other: SocketAddress|
                other != addr && #[trigger] after.sent.contains_key(other) ==> after.sent[other]
                    == peers.sent[other]
            &&& after.self_id == peers.self_id
            &&& after.self_addr == peers.self_addr
            &&& after.resolved == peers.resolved
            &&& after.bootstraps == peers.bootstraps
            &&& after.tombstones == peers.tombstones
        }),
{
}

/// A successful send resets the count of its own address, and of no other.
pub proof fn success_resets_one_count<V>(peers: Peers<V>, addr: SocketAddress)
    ensures
        ({
            let after = peers.reached(addr);
            &&& !after.failures.contains_key(addr)
            &&& forall|other: SocketAddress|
                other != addr ==> (#[trigger] after.failures.contains_key(other)
                    <==> peers.failures.contains_key(other))
            &&& forall|other: SocketAddress| #[trigger]
                after.failures.contains_key(other) ==> after.failures[other]
                    == peers.failures[other]
            &&& after.self_id == peers.self_id
            &&& after.self_addr == peers.self_addr
            &&& after.resolved == peers.resolved
            &&& after.bootstraps == peers.bootstraps
            &&& after.tombstones == peers.tombstones
            &&& after.sent == peers.sent
        }),
{
}

/// The number of failed sends in a row that the registry has counted at an address.
pub open spec fn counted<V>(peers: Peers<V>, addr: SocketAddress) -> int {
    if peers.failures.contains_key(addr) {
        peers.failures[addr] as int
    } else {
        0
    }
}

/// A failed send below the tenth in a row adds one to the count of its address, evicts nobody and
/// changes nothing else.
pub proof fn failure_counts_one<V>(peers: Peers<V>, addr: SocketAddress, evicted: Option<NodeId>)
    requires
        peers.evicts(addr, evicted),
        counted(peers, addr) + 1 < 10,
    ensures
        ({
            let after = peers.missed(addr, evicted);
            &&& evicted is None
            &&& counted(after, addr) == counted(peers, addr) + 1
            &&& forall|other: SocketAddress|
                other != addr ==> (#[trigger] after.failures.contains_key(other)
                    <==> peers.failures.contains_key(other))
            &&& forall|other: SocketAddress|
                other != addr && #[trigger] after.failures.contains_key(other)
                    ==> after.failures[other] == peers.failures[other]
            &&& after.self_id == peers.self_id
            &&& after.self_addr == peers.self_addr
            &&& after.resolved == peers.resolved
            &&& after.bootstraps == peers.bootstraps
            &&& after.tombstones == peers.tombstones
            &&& after.sent == peers.sent
        }),
{
}

/// The tenth failed send in a row evicts the lowest node that is a peer at the address, which is
/// tombstoned and no peer any more; where there is none, the address is no bootstrap any more and
/// nobody is tombstoned. Either way what was sent there is forgotten, and every other address and
/// node is left as it was.
pub proof fn tenth_failure_in_a_row<V>(
    peers: Peers<V>,
    addr: SocketAddress,
    evicted: Option<NodeId>,
)
    requires
        peers.wf(),
        peers.evicts(addr, evicted),
        counted(peers, addr) + 1 >= 10,
    ensures
        evicted is None <==> forall|id: NodeId| #[trigger]
            peers.resolved.contains_key(id) ==> peers.resolved[id] != addr,
        evicted matches Some(id) ==> {
            &&& peers.resolved.contains_key(id)
            &&& peers.resolved[id] == addr
            &&& forall|other: NodeId| #[trigger]
                peers.resolved.contains_key(other) && peers.resolved[other] == addr ==> id <= other
        },
        ({
            let after = peers.missed(addr, evicted);
            &&& forall|id: NodeId| #[trigger]
                after.tombstones.contains(id) <==> peers.tombstones.contains(id) || evicted
                    == Some(id)
            &&& forall|id: NodeId| #[trigger]
                after.resolved.contains_key(id) <==> peers.resolved.contains_key(id) && evicted
                    != Some(id)
            &&& forall|id: NodeId| #[trigger]
                after.resolved.contains_key(id) ==> after.resolved[id] == peers.resolved[id]
            &&& forall|other: SocketAddress| #[trigger]
                after.bootstraps.contains(other) <==> peers.bootstraps.contains(other) && (other
                    != addr || evicted is Some)
            &&& !after.sent.contains_key(addr)
            &&& !after.failures.contains_key(addr)
            &&& forall|other: SocketAddress|
                other != addr ==> (#[trigger] after.failures.contains_key(other)
                    <==> peers.failures.contains_key(other))
            &&& forall|other: SocketAddress| #[trigger]
                after.failures.contains_key(other) ==> after.failures[other]
                    == peers.failures[other]
            &&& forall|other: SocketAddress|
                other != addr ==> (#[trigger] after.sent.contains_key(other)
                    <==> peers.sent.contains_key(other))
            &&& forall|other: SocketAddress| #[trigger]
                after.sent.contains_key(other) ==> after.sent[other] == peers.sent[other]
            &&& after.self_id == peers.self_id
            &&& after.self_addr == peers.self_addr
        }),
{
    match evicted {
        Some(id) => {
            assert(peers.resolved.contains_key(id));
            assert(id != peers.self_id);
            let cleared = Peers { failures: peers.failures.remove(addr), ..peers };
            let gone = set![id].remove(peers.self_id);
            let addrs = super::registry::addresses_of(peers.resolved, gone);
            assert(gone.contains(id));
            assert(addrs.contains(addr));
            assert forall|other: SocketAddress| other != addr implies !addrs.contains(other) by {}
            assert(peers.missed(addr, evicted) == cleared.departed(set![id]));
        },
        None => {
            assert forall|id: NodeId| #[trigger] peers.resolved.contains_key(id) implies
                peers.resolved[id] != addr by {
                if peers.resolved[id] == addr {
                    assert(peers.has_address(addr));
                }
            }
        },
    }
}

/// The failed sends to `addr` in a row after the events, of which there were `start` before.
pub open spec fn failed_in_a_row<V>(
    start: int,
    events: Seq<PeerEvent<V>>,
    addr: SocketAddress,
) -> int
    decreases events.len(),
{
    if events.len() == 0 {
        start
    } else {
        let before = failed_in_a_row(start, events.drop_last(), addr);
        match events.last() {
            PeerEvent::Reached(to) => if to == addr {
                0
            } else {
                before
            },
            PeerEvent::Missed(to, evicted) => if to == addr {
                before + 1
            } else {
                before
            },
            _ => before,
        }
    }
}

/// The events are sends: delivered, recorded or failed.
pub open spec fn are_sends<V>(events: Seq<PeerEvent<V>>) -> bool {
    forall|i: int|
        #![trigger events[i]]
        0 <= i < events.len() ==> events[i] is Reached || events[i] is Sent || events[i] is Missed
}

/// What is sent to other addresses, delivered or failed, does not touch the failure count of an
/// address: while the failed sends there are not ten in a row, the count is their number, and the
/// peers there stay.
pub proof fn counts_are_kept_apart<V>(
    peers: Peers<V>,
    events: Seq<PeerEvent<V>>,
    addr: SocketAddress,
)
    requires
        peers.wf(),
        are_sends(events),
        peers.allows_all(events),
        forall|n: int|
            0 <= n <= events.len() ==> #[trigger] failed_in_a_row(
                counted(peers, addr),
                events.take(n),
                addr,
            ) < 10,
    ensures
        peers.after_all(events).wf(),
        counted(peers.after_all(events), addr) == failed_in_a_row(
            counted(peers, addr),
            events,
            addr,
        ),
        forall|id: NodeId| #[trigger]
            peers.resolved.contains_key(id) && peers.resolved[id] == addr ==> peers.after_all(
                events,
            ).resolved.contains_key(id) && peers.after_all(events).resolved[id] == addr,
    decreases events.len(),
{
    if events.len() > 0 {
        let rest = events.drop_last();
        let before = peers.after_all(rest);
        assert forall|i: int|
            #![trigger rest[i]]
            0 <= i < rest.len() implies rest[i] is Reached || rest[i] is Sent
            || rest[i] is Missed by {
            assert(rest[i] == events[i]);
        }
        assert forall|n: int| 0 <= n <= rest.len() implies #[trigger] failed_in_a_row(
            counted(peers, addr),
            rest.take(n),
            addr,
        ) < 10 by {
            assert(rest.take(n) =~= events.take(n));
        }
        counts_are_kept_apart(peers, rest, addr);
        assert(events.take(events.len() as int) =~= events);
        assert(failed_in_a_row(counted(peers, addr), events.take(events.len() as int), addr) < 10);
        assert(events[events.len() - 1] == events.last());
        event_keeps_invariant(before, events.last());
        match events.last() {
            PeerEvent::Reached(to) => {
                success_resets_one_count(before, to);
            },
            PeerEvent::Sent(to, version) => {
                delivery_touches_one_address(before, to, version);
            },
            PeerEvent::Missed(to, evicted) => {
                if counted(before, to) + 1 < 10 {
                    failure_counts_one(before, to, evicted);
                } else {
                    tenth_failure_in_a_row(before, to, evicted);
                }
            },
            _ => {},
        }
    }
}

/// Crashed peers are found out: ten failed sends to an address with no delivery to that same
/// address among them evict the lowest node there, whatever was sent to other addresses in
/// between, and with whatever success.
pub proof fn ten_failures_evict<V>(
    peers: Peers<V>,
    events: Seq<PeerEvent<V>>,
    addr: SocketAddress,
    evicted: Option<NodeId>,
    id: NodeId,
)
    requires
        peers.wf(),
        !peers.failures.contains_key(addr),
        peers.resolved.contains_key(id),
        peers.resolved[id] == addr,
        are_sends(events),
        peers.allows_all(events),
        forall|i: int|
            #![trigger events[i]]
            0 <= i < events.len() ==> events[i] != PeerEvent::<V>::Reached(addr),
        failed_in_a_row(0, events, addr) == 9,
        peers.after_all(events).evicts(addr, evicted),
    ensures
        evicted is Some,
        evicted->0 <= id,
        peers.after_all(events).resolved.contains_key(evicted->0),
        peers.after_all(events).resolved[evicted->0] == addr,
        peers.after_all(events).missed(addr, evicted).tombstones.contains(evicted->0),
        !peers.after_all(events).missed(addr, evicted).resolved.contains_key(evicted->0),
{
    let before = peers.after_all(events);
    assert forall|n: int| 0 <= n <= events.len() implies #[trigger] failed_in_a_row(
        0,
        events.take(n),
        addr,
    ) < 10 by {
        failures_only_grow(events, n, addr);
    }
    counts_are_kept_apart(peers, events, addr);
    tenth_failure_in_a_row(before, addr, evicted);
    assert(before.resolved.contains_key(id) && before.resolved[id] == addr);
}

/// Where nothing was delivered to an address, the failed sends in a row there only grow.
proof fn failures_only_grow<V>(events: Seq<PeerEvent<V>>, n: int, addr: SocketAddress)
    requires
        0 <= n <= events.len(),
        forall|i: int|
            #![trigger events[i]]
            0 <= i < events.len() ==> events[i] != PeerEvent::<V>::Reached(addr),
    ensures
        failed_in_a_row(0, events.take(n), addr) <= failed_in_a_row(0, events, addr),
    decreases events.len(),
{
    if n < events.len() {
        let rest = events.drop_last();
        assert forall|i: int|
            #![trigger rest[i]]
            0 <= i < rest.len() implies rest[i] != PeerEvent::<V>::Reached(addr) by {
            assert(rest[i] == events[i]);
        }
        failures_only_grow(rest, n, addr);
        assert(rest.take(n) =~= events.take(n));
        assert(events[events.len() - 1] == events.last());
    } else {
        assert(events.take(n) =~= events);
    }
}

/// What can be told of in a message: any node but this one, at any address but its own, unless it
/// has departed, before or by the message.
pub open spec fn welcomes<V>(peers: Peers<V>, entry: PeerEntry, departed: Seq<NodeId>) -> bool {
    &&& entry.node_id != peers.self_id
    &&& entry.addr != peers.self_addr
    &&& !peers.tombstones.contains(entry.node_id)
    &&& !departed.contains(entry.node_id)
}

/// A list of peers leaves alone who this node is, who has departed, and what was sent where.
pub proof fn list_leaves_alone<V>(peers: Peers<V>, known: Seq<PeerEntry>)
    ensures
        peers.with_all_resolved(known).self_id == peers.self_id,
        peers.with_all_resolved(known).self_addr == peers.self_addr,
        peers.with_all_resolved(known).tombstones == peers.tombstones,
        peers.with_all_resolved(known).failures == peers.failures,
        peers.with_all_resolved(known).sent == peers.sent,
    decreases known.len(),
{
    if known.len() > 0 {
        let before = peers.with_all_resolved(known.drop_last());
        list_leaves_alone(peers, known.drop_last());
        added_peer_is_known(before, known.last().node_id, known.last().addr);
    }
}

/// The list tells of the node, somewhere from `from` on, and the node is welcome there.
pub open spec fn tells_of<V>(
    peers: Peers<V>,
    known: Seq<PeerEntry>,
    departed: Seq<NodeId>,
    id: NodeId,
    from: int,
) -> bool {
    exists|i: int|
        from <= i < known.len() && (#[trigger] known[i]).node_id == id && welcomes(
            peers,
            known[i],
            departed,
        )
}

/// The list tells of a node at the address, and the node is welcome there.
pub open spec fn tells_of_address<V>(
    peers: Peers<V>,
    known: Seq<PeerEntry>,
    departed: Seq<NodeId>,
    addr: SocketAddress,
) -> bool {
    exists|i: int|
        0 <= i < known.len() && (#[trigger] known[i]).addr == addr && welcomes(
            peers,
            known[i],
            departed,
        )
}

/// An entry that is welcome is told of.
pub proof fn welcome_entry_is_told_of<V>(
    peers: Peers<V>,
    known: Seq<PeerEntry>,
    departed: Seq<NodeId>,
    i: int,
)
    requires
        0 <= i < known.len(),
        welcomes(peers, known[i], departed),
    ensures
        tells_of(peers, known, departed, known[i].node_id, 0),
        tells_of_address(peers, known, departed, known[i].addr),
{
}

/// What is told of is an entry that is welcome.
pub proof fn told_of_is_welcome_entry<V>(
    peers: Peers<V>,
    known: Seq<PeerEntry>,
    departed: Seq<NodeId>,
    id: NodeId,
    addr: SocketAddress,
)
    ensures
        (forall|i: int|
            0 <= i < known.len() && (#[trigger] known[i]).node_id == id ==> !welcomes(
                peers,
                known[i],
                departed,
            )) ==> !tells_of(peers, known, departed, id, 0),
        (forall|i: int|
            0 <= i < known.len() && (#[trigger] known[i]).addr == addr ==> !welcomes(
                peers,
                known[i],
                departed,
            )) ==> !tells_of_address(peers, known, departed, addr),
{
}

/// The last entry of a list tells, or what is before it does.
proof fn tells_by_last<V>(
    peers: Peers<V>,
    known: Seq<PeerEntry>,
    departed: Seq<NodeId>,
    id: NodeId,
    from: int,
)
    requires
        known.len() > 0,
        0 <= from,
    ensures
        tells_of(peers, known, departed, id, from) <==> tells_of(
            peers,
            known.drop_last(),
            departed,
            id,
            from,
        ) || (from < known.len() && known.last().node_id == id && welcomes(
            peers,
            known.last(),
            departed,
        )),
{
    let rest = known.drop_last();
    assert(known[known.len() - 1] == known.last());
    if tells_of(peers, known, departed, id, from) {
        let i = choose|i: int|
            from <= i < known.len() && (#[trigger] known[i]).node_id == id && welcomes(
                peers,
                known[i],
                departed,
            );
        if i < rest.len() {
            assert(rest[i] == known[i]);
        }
    }
    if tells_of(peers, rest, departed, id, from) {
        let i = choose|i: int|
            from <= i < rest.len() && (#[trigger] rest[i]).node_id == id && welcomes(
                peers,
                rest[i],
                departed,
            );
        assert(known[i] == rest[i]);
    }
}

proof fn tells_address_by_last<V>(
    peers: Peers<V>,
    known: Seq<PeerEntry>,
    departed: Seq<NodeId>,
    addr: SocketAddress,
)
    requires
        known.len() > 0,
    ensures
        tells_of_address(peers, known, departed, addr) <==> tells_of_address(
            peers,
            known.drop_last(),
            departed,
            addr,
        ) || (known.last().addr == addr && welcomes(peers, known.last(), departed)),
{
    let rest = known.drop_last();
    assert(known[known.len() - 1] == known.last());
    if tells_of_address(peers, known, departed, addr) {
        let i = choose|i: int|
            0 <= i < known.len() && (#[trigger] known[i]).addr == addr && welcomes(
                peers,
                known[i],
                departed,
            );
        if i < rest.len() {
            assert(rest[i] == known[i]);
        }
    }
    if tells_of_address(peers, rest, departed, addr) {
        let i = choose|i: int|
            0 <= i < rest.len() && (#[trigger] rest[i]).addr == addr && welcomes(
                peers,
                rest[i],
                departed,
            );
        assert(known[i] == rest[i]);
    }
}

/// What a list of peers comes to: a node is a peer afterwards if it was one or if the list tells
/// of it, and one that the list does not tell of stays where it was.
pub proof fn listed_peers_are_known<V>(peers: Peers<V>, known: Seq<PeerEntry>, id: NodeId)
    ensures
        peers.with_all_resolved(known).resolved.contains_key(id) <==> peers.resolved.contains_key(
            id,
        ) || tells_of(peers, known, Seq::empty(), id, 0),
        peers.resolved.contains_key(id) && !tells_of(peers, known, Seq::empty(), id, 0)
            ==> peers.with_all_resolved(known).resolved[id] == peers.resolved[id],
    decreases known.len(),
{
    if known.len() > 0 {
        let rest = known.drop_last();
        let before = peers.with_all_resolved(rest);
        listed_peers_are_known(peers, rest, id);
        list_leaves_alone(peers, rest);
        added_peer_is_known(before, known.last().node_id, known.last().addr);
        tells_by_last(peers, known, Seq::empty(), id, 0);
    }
}

/// A node that a list tells of is a peer at the address that the list gives of it last.
pub proof fn last_told_address_counts<V>(peers: Peers<V>, known: Seq<PeerEntry>, i: int)
    requires
        0 <= i < known.len(),
        welcomes(peers, known[i], Seq::empty()),
        !tells_of(peers, known, Seq::empty(), known[i].node_id, i + 1),
    ensures
        peers.with_all_resolved(known).resolved.contains_key(known[i].node_id),
        peers.with_all_resolved(known).resolved[known[i].node_id] == known[i].addr,
    decreases known.len(),
{
    let rest = known.drop_last();
    let before = peers.with_all_resolved(rest);
    list_leaves_alone(peers, rest);
    added_peer_is_known(before, known.last().node_id, known.last().addr);
    tells_by_last(peers, known, Seq::empty(), known[i].node_id, i + 1);
    if i < rest.len() {
        assert(rest[i] == known[i]);
        last_told_address_counts(peers, rest, i);
    }
}

/// The addresses of the nodes that a list tells of are no bootstraps any more; all others stay.
pub proof fn listed_addresses_migrate<V>(
    peers: Peers<V>,
    known: Seq<PeerEntry>,
    addr: SocketAddress,
)
    ensures
        peers.with_all_resolved(known).bootstraps.contains(addr) <==> peers.bootstraps.contains(
            addr,
        ) && !tells_of_address(peers, known, Seq::empty(), addr),
    decreases known.len(),
{
    if known.len() > 0 {
        let rest = known.drop_last();
        let before = peers.with_all_resolved(rest);
        listed_addresses_migrate(peers, rest, addr);
        list_leaves_alone(peers, rest);
        added_peer_is_known(before, known.last().node_id, known.last().addr);
        tells_address_by_last(peers, known, Seq::empty(), addr);
    }
}

/// A welcome is refused to this node, to its address, to the departed, and to nobody else.
pub proof fn who_is_welcome<V>(peers: Peers<V>, entry: PeerEntry, departed: Seq<NodeId>)
    ensures
        welcomes(peers, entry, departed) <==> entry.node_id != peers.self_id && entry.addr
            != peers.self_addr && !peers.tombstones.contains(entry.node_id) && !(exists|i: int|
            0 <= i < departed.len() && #[trigger] departed[i] == entry.node_id),
{
}

/// Who is told of does not depend on who has departed earlier and who departs by the message.
proof fn told_after_departures<V>(
    peers: Peers<V>,
    then: Peers<V>,
    known: Seq<PeerEntry>,
    departed: Seq<NodeId>,
    id: NodeId,
    addr: SocketAddress,
)
    requires
        then.self_id == peers.self_id,
        then.self_addr == peers.self_addr,
        then.tombstones == peers.departed(departed.to_set()).tombstones,
    ensures
        tells_of(then, known, Seq::empty(), id, 0) <==> tells_of(peers, known, departed, id, 0),
        tells_of_address(then, known, Seq::empty(), addr) <==> tells_of_address(
            peers,
            known,
            departed,
            addr,
        ),
        forall|entry: PeerEntry| #[trigger]
            welcomes(then, entry, Seq::empty()) <==> welcomes(peers, entry, departed),
{
    departure_is_of_those_named(peers, departed.to_set());
    assert forall|entry: PeerEntry| #[trigger] welcomes(then, entry, Seq::empty()) <==> welcomes(
        peers,
        entry,
        departed,
    ) by {
        assert(then.tombstones.contains(entry.node_id) <==> peers.tombstones.contains(
            entry.node_id,
        ) || (departed.to_set().contains(entry.node_id) && entry.node_id != peers.self_id));
    }
    if tells_of(peers, known, departed, id, 0) {
        let i = choose|i: int|
            0 <= i < known.len() && (#[trigger] known[i]).node_id == id && welcomes(
                peers,
                known[i],
                departed,
            );
        assert(welcomes(then, known[i], Seq::empty()));
    }
    if tells_of_address(peers, known, departed, addr) {
        let i = choose|i: int|
            0 <= i < known.len() && (#[trigger] known[i]).addr == addr && welcomes(
                peers,
                known[i],
                departed,
            );
        assert(welcomes(then, known[i], Seq::empty()));
    }
}

/// After a `Sync` or an accepted `SyncDelta` the sender is a peer, whenever it is not this node,
/// does not give this node's address, and is not among the departed, before or by the message: at
/// the address that it gave, unless the peers that it tells of say otherwise of it.
pub proof fn sender_is_known<V>(
    peers: Peers<V>,
    from: PeerEntry,
    known: Seq<PeerEntry>,
    departed: Seq<NodeId>,
)
    requires
        from.node_id != peers.self_id,
        from.addr != peers.self_addr,
        !peers.tombstones.contains(from.node_id),
        !departed.contains(from.node_id),
    ensures
        peers.heard(from, known, departed).resolved.contains_key(from.node_id),
        (forall|i: int| 0 <= i < known.len() ==> (#[trigger] known[i]).node_id != from.node_id)
            ==> peers.heard(from, known, departed).resolved[from.node_id] == from.addr,
        !peers.heard(from, known, departed).bootstraps.contains(from.addr),
{
    membership_after_message(peers, from, known, departed, from.node_id);
    message_leaves_alone(peers, from, known, departed, from.addr);
}

/// Who is a peer after a message: those who were and have not departed by it, the sender, and
/// those it tells of, as far as they are welcome; and nobody else. Who has departed by it is
/// tombstoned, but for this node; and nobody else is.
pub proof fn membership_after_message<V>(
    peers: Peers<V>,
    from: PeerEntry,
    known: Seq<PeerEntry>,
    departed: Seq<NodeId>,
    id: NodeId,
)
    ensures
        ({
            let after = peers.heard(from, known, departed);
            let bidden = peers.bidden_farewell(known, departed);
            let stays = peers.resolved.contains_key(id) && (!departed.contains(id) || id
                == peers.self_id);
            let told = tells_of(peers, known, departed, id, 0);
            let sends = from.node_id == id && welcomes(peers, from, departed);
            &&& after.resolved.contains_key(id) <==> stays || sends || told
            &&& bidden.resolved.contains_key(id) <==> stays || told
            &&& stays && !sends && !told ==> after.resolved[id] == peers.resolved[id]
            &&& stays && !told ==> bidden.resolved[id] == peers.resolved[id]
            &&& sends && !told ==> after.resolved[id] == from.addr
            &&& after.tombstones.contains(id) <==> peers.tombstones.contains(id) || (
            departed.contains(id) && id != peers.self_id)
            &&& bidden.tombstones.contains(id) <==> after.tombstones.contains(id)
        }),
{
    let absorbed = peers.departed(departed.to_set());
    let met = absorbed.with_resolved(from.node_id, from.addr);
    departure_is_of_those_named(peers, departed.to_set());
    added_peer_is_known(absorbed, from.node_id, from.addr);
    told_after_departures(peers, absorbed, known, departed, id, from.addr);
    told_after_departures(peers, met, known, departed, id, from.addr);
    listed_peers_are_known(met, known, id);
    listed_peers_are_known(absorbed, known, id);
    list_leaves_alone(met, known);
    list_leaves_alone(absorbed, known);
    assert(welcomes(absorbed, from, Seq::empty()) <==> welcomes(peers, from, departed));
    assert(departed.to_set().contains(id) <==> departed.contains(id));
}

/// A node that a message tells of and that is welcome is a peer afterwards, at the address that
/// the message gives of it last.
pub proof fn told_address_counts<V>(
    peers: Peers<V>,
    from: PeerEntry,
    known: Seq<PeerEntry>,
    departed: Seq<NodeId>,
    i: int,
)
    requires
        0 <= i < known.len(),
        welcomes(peers, known[i], departed),
        forall|j: int|
            i < j < known.len() ==> (#[trigger] known[j]).node_id != known[i].node_id,
    ensures
        peers.heard(from, known, departed).resolved.contains_key(known[i].node_id),
        peers.heard(from, known, departed).resolved[known[i].node_id] == known[i].addr,
        peers.bidden_farewell(known, departed).resolved.contains_key(known[i].node_id),
        peers.bidden_farewell(known, departed).resolved[known[i].node_id] == known[i].addr,
{
    let absorbed = peers.departed(departed.to_set());
    let met = absorbed.with_resolved(from.node_id, from.addr);
    departure_is_of_those_named(peers, departed.to_set());
    added_peer_is_known(absorbed, from.node_id, from.addr);
    told_after_departures(peers, absorbed, known, departed, known[i].node_id, from.addr);
    told_after_departures(peers, met, known, departed, known[i].node_id, from.addr);
    assert(welcomes(met, known[i], Seq::empty()));
    assert(welcomes(absorbed, known[i], Seq::empty()));
    last_told_address_counts(met, known, i);
    last_told_address_counts(absorbed, known, i);
}

/// What a message leaves alone: who this node is; the bootstraps that are not the address of a
/// peer it brought; the failure counts and the versions sent, but for the addresses of those who
/// have departed by it.
pub proof fn message_leaves_alone<V>(
    peers: Peers<V>,
    from: PeerEntry,
    known: Seq<PeerEntry>,
    departed: Seq<NodeId>,
    addr: SocketAddress,
)
    ensures
        ({
            let after = peers.heard(from, known, departed);
            let bidden = peers.bidden_farewell(known, departed);
            let gone = departs_from(peers, departed.to_set(), addr);
            let told = tells_of_address(peers, known, departed, addr);
            let sends = from.addr == addr && welcomes(peers, from, departed);
            &&& after.self_id == peers.self_id
            &&& after.self_addr == peers.self_addr
            &&& bidden.self_id == peers.self_id
            &&& bidden.self_addr == peers.self_addr
            &&& after.bootstraps.contains(addr) <==> peers.bootstraps.contains(addr) && !sends
                && !told
            &&& bidden.bootstraps.contains(addr) <==> peers.bootstraps.contains(addr) && !told
            &&& after.failures.contains_key(addr) <==> peers.failures.contains_key(addr) && !gone
            &&& after.failures.contains_key(addr) ==> after.failures[addr] == peers.failures[addr]
            &&& after.sent.contains_key(addr) <==> peers.sent.contains_key(addr) && !gone
            &&& after.sent.contains_key(addr) ==> after.sent[addr] == peers.sent[addr]
            &&& bidden.failures == after.failures
            &&& bidden.sent == after.sent
        }),
{
    let absorbed = peers.departed(departed.to_set());
    let met = absorbed.with_resolved(from.node_id, from.addr);
    departure_is_of_those_named(peers, departed.to_set());
    added_peer_is_known(absorbed, from.node_id, from.addr);
    told_after_departures(peers, absorbed, known, departed, from.node_id, addr);
    told_after_departures(peers, met, known, departed, from.node_id, addr);
    listed_addresses_migrate(met, known, addr);
    listed_addresses_migrate(absorbed, known, addr);
    list_leaves_alone(met, known);
    list_leaves_alone(absorbed, known);
    assert(welcomes(absorbed, from, Seq::empty()) <==> welcomes(peers, from, departed));
}

/// The invariant, clause by clause.
pub proof fn registry_invariant<V>(peers: Peers<V>)
    ensures
        peers.wf() <==> {
            &&& !peers.resolved.contains_key(peers.self_id)
            &&& !peers.tombstones.contains(peers.self_id)
            &&& !peers.bootstraps.contains(peers.self_addr)
            &&& forall|id: NodeId| #[trigger]
                peers.resolved.contains_key(id) ==> peers.resolved[id] != peers.self_addr
                    && !peers.tombstones.contains(id) && !peers.bootstraps.contains(
                    peers.resolved[id],
                )
            &&& forall|addr: SocketAddress| #[trigger]
                peers.failures.contains_key(addr) ==> 0 < peers.failures[addr] < 10
        },
        FAILURE_THRESHOLD == 10,
{
}

} // verus!

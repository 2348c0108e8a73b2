//! The gossip protocol, with the network played by the tests.
use crdt_canvas::canvas::CanvasDocument;
use crdt_canvas::counters::GCounter;
use crdt_canvas::net::config::{resolve_advertise_addr, DEFAULT_INTERVAL};
use crdt_canvas::net::discovery::{
    announced_peer, announcement, first_label, handle_event, parse_peer, preferred_address,
    removed_peer, DiscoveryEvent,
};
use crdt_canvas::net::engine::{FANOUT, GOODBYE_FANOUT};
use crdt_canvas::net::message::{read_frame, read_length, write_frame};
use crdt_canvas::net::registry::{FAILURE_THRESHOLD, KNOWN_PEERS_CAP};
use crdt_canvas::net::{
    FrameError, GossipConfig, GossipEngine, GossipMessage, PeerEntry, PeerRegistry, SocketAddress,
    MAX_FRAME,
};
use crdt_canvas::traits::{Crdt, DeltaCrdt};
use crdt_canvas::NodeId;
use std::collections::BTreeMap;

fn addr(port: u16) -> SocketAddress {
    ((4, 0x7f00_0001), port, 0, 0)
}

struct Node {
    id: NodeId,
    engine: GossipEngine<GCounter>,
    state: GCounter,
}

impl Node {
    fn start(port: u16) -> Node {
        Node::start_with_bootstraps(port, vec![])
    }

    fn start_with_bootstraps(port: u16, peers: Vec<SocketAddress>) -> Node {
        let id = port as NodeId;
        let config = GossipConfig::new(id, addr(port)).with_peers(peers).with_mdns(false);
        Node { id, engine: GossipEngine::run(&config, addr(port), None), state: GCounter::new() }
    }

    fn addr(&self) -> SocketAddress {
        self.engine.local_addr()
    }

    fn bump(&mut self) {
        self.state.increment(self.id);
    }

    fn hear(&mut self, message: GossipMessage<GCounter>) {
        if let Some(merged) = self.engine.receive(self.state.clone(), message) {
            self.state.merge(merged);
        }
    }

    fn knows(&self, id: NodeId) -> bool {
        self.engine.known_peers().iter().any(|p| p.node_id == id)
    }
}

fn introduce(nodes: &mut [Node], i: usize, j: usize) {
    let (id, at) = (nodes[j].id, nodes[j].addr());
    nodes[i].engine.add_peer(id, at);
}

fn full_mesh(nodes: &mut [Node]) {
    for i in 0..nodes.len() {
        for j in 0..nodes.len() {
            if i != j {
                introduce(nodes, i, j);
            }
        }
    }
}

/// One gossip round of every node. Messages to unknown addresses are lost.
fn round(nodes: &mut [Node]) {
    for i in 0..nodes.len() {
        let snapshot = nodes[i].state.clone();
        let outgoing = nodes[i].engine.tick(&snapshot);
        assert!(outgoing.len() <= FANOUT);
        for out in outgoing {
            let target = nodes.iter().position(|n| n.addr() == out.addr);
            if let Some(j) = target {
                nodes[j].hear(out.message);
            }
            nodes[i].engine.sent(out.addr, target.is_some(), out.version);
        }
    }
}

fn rounds(nodes: &mut [Node], count: usize) {
    for _ in 0..count {
        round(nodes);
    }
}

#[test]
fn peer_list_propagates_transitively() {
    let mut nodes = [Node::start(1), Node::start(2), Node::start(3)];
    introduce(&mut nodes, 0, 1);
    introduce(&mut nodes, 1, 0);
    introduce(&mut nodes, 1, 2);
    introduce(&mut nodes, 2, 1);
    rounds(&mut nodes, 5);
    assert!(nodes[0].engine.known_peers().len() >= 2);
    assert!(nodes[2].engine.known_peers().len() >= 2);
    assert!(nodes[0].knows(3), "A should have learned C via B");
    assert!(nodes[2].knows(1), "C should have learned A via B");
}

#[test]
fn bootstrap_gets_uuid_after_first_contact() {
    let a = Node::start(1);
    let b = Node::start_with_bootstraps(2, vec![a.addr()]);
    let mut nodes = [a, b];
    introduce(&mut nodes, 0, 1);
    assert!(nodes[1].engine.known_peers().is_empty());
    rounds(&mut nodes, 3);
    assert!(nodes[1].knows(1));
    assert!(nodes[1].engine.registry.bootstraps.is_empty());
}

#[test]
fn converges_across_three_nodes() {
    let mut nodes = [Node::start(1), Node::start(2), Node::start(3)];
    full_mesh(&mut nodes);
    for _ in 0..3 {
        nodes[0].bump();
    }
    nodes[1].bump();
    nodes[2].bump();
    nodes[2].bump();
    rounds(&mut nodes, 6);
    assert_eq!(nodes[0].state.value(), 6, "node a total");
    assert_eq!(nodes[1].state.value(), 6, "node b total");
    assert_eq!(nodes[2].state.value(), 6, "node c total");
    assert_eq!(nodes[0].state, nodes[1].state);
    assert_eq!(nodes[1].state, nodes[2].state);
}

#[test]
fn partition_then_heal() {
    let mut nodes = [Node::start(1), Node::start(2)];
    full_mesh(&mut nodes);
    nodes[0].bump();
    nodes[1].bump();
    rounds(&mut nodes, 3);
    assert_eq!(nodes[0].state, nodes[1].state);

    nodes[0].engine.remove_peer(2);
    nodes[1].engine.remove_peer(1);
    nodes[0].bump();
    nodes[0].bump();
    nodes[1].bump();
    rounds(&mut nodes, 3);
    assert_ne!(nodes[0].state, nodes[1].state, "should have diverged");

    full_mesh(&mut nodes);
    rounds(&mut nodes, 3);
    assert_eq!(nodes[0].state.value(), 5);
    assert_eq!(nodes[1].state.value(), 5);
    assert_eq!(nodes[0].state, nodes[1].state);
}

#[test]
fn garbage_does_not_kill_listener() {
    let claim = (32u32 * 1024 * 1024).to_be_bytes().to_vec();
    assert_eq!(read_frame(&claim), Err(FrameError::TooLarge));
    let mut truncated = 100u32.to_be_bytes().to_vec();
    truncated.extend_from_slice(b"not enough bytes");
    assert_eq!(read_frame(&truncated), Err(FrameError::Truncated));
    assert_eq!(read_frame(&vec![0xff, 0xff]), Err(FrameError::Truncated));
}

#[test]
fn graceful_shutdown_propagates_tombstone() {
    let mut nodes = [Node::start(1), Node::start(2), Node::start(3)];
    full_mesh(&mut nodes);
    rounds(&mut nodes, 2);
    let (targets, _) = nodes[0].engine.graceful_shutdown();
    assert_eq!(targets.len(), 2);
    assert!(!nodes[0].engine.running);
    for j in 1..3 {
        assert!(targets.contains(&nodes[j].addr()));
        let (_, message) = nodes[0].engine.graceful_shutdown();
        nodes[j].hear(message);
    }
    assert!(nodes[1].engine.known_tombstones().contains(&1));
    assert!(nodes[2].engine.known_tombstones().contains(&1));
    assert!(!nodes[1].knows(1), "B should not still know A");
    assert!(!nodes[2].knows(1), "C should not still know A");
}

#[test]
fn tombstoned_peer_is_not_revived_by_peer_list_gossip() {
    let mut nodes = [Node::start(1), Node::start(2), Node::start(3)];
    full_mesh(&mut nodes);
    rounds(&mut nodes, 2);
    nodes[0].engine.tombstone_peer(2);
    assert!(nodes[0].engine.known_tombstones().contains(&2));
    assert!(!nodes[0].knows(2), "A should drop B from resolved when tombstoning");
    rounds(&mut nodes, 4);
    assert!(!nodes[0].knows(2));
    assert!(nodes[0].engine.known_tombstones().contains(&2));
}

#[test]
fn consecutive_failures_evict_unreachable_bootstrap() {
    let dead = addr(999);
    let mut nodes = [Node::start_with_bootstraps(1, vec![dead]), Node::start(2)];
    rounds(&mut nodes, 9);
    assert!(nodes[0].engine.registry.bootstraps.contains(&dead));
    rounds(&mut nodes, 1);
    assert!(!nodes[0].engine.registry.bootstraps.contains(&dead));
    assert!(nodes[0].engine.known_tombstones().is_empty());
    full_mesh(&mut nodes);
    rounds(&mut nodes, 2);
    assert!(nodes[0].knows(2));
}

#[test]
fn tombstone_propagates_transitively_via_known_peers_in_sync() {
    let mut nodes = [Node::start(1), Node::start(2), Node::start(3)];
    introduce(&mut nodes, 0, 1);
    introduce(&mut nodes, 1, 0);
    introduce(&mut nodes, 1, 2);
    introduce(&mut nodes, 2, 1);
    rounds(&mut nodes, 5);
    assert!(nodes[0].knows(3), "A should have learned C via B's peer-list gossip");
    nodes[0].engine.tombstone_peer(3);
    rounds(&mut nodes, 6);
    assert!(nodes[1].engine.known_tombstones().contains(&3));
    assert!(!nodes[2].engine.known_tombstones().contains(&3));
}

#[test]
fn tenth_failure_tombstones_a_peer() {
    let mut registry: PeerRegistry<BTreeMap<NodeId, u64>> = PeerRegistry::new(1, addr(1));
    registry.add_resolved(2, addr(2));
    registry.record_sent_version(addr(2), BTreeMap::new());
    for _ in 0..FAILURE_THRESHOLD - 1 {
        assert_eq!(registry.mark_failure(addr(2)), None);
    }
    registry.mark_success(addr(2));
    for _ in 0..FAILURE_THRESHOLD - 1 {
        assert_eq!(registry.mark_failure(addr(2)), None);
    }
    assert_eq!(registry.mark_failure(addr(2)), Some(2));
    assert_eq!(registry.known_tombstones(), vec![2]);
    assert!(registry.known_peers().is_empty());
    assert!(registry.last_sent_version(&addr(2)).is_none());
    registry.add_resolved(2, addr(2));
    assert!(registry.known_peers().is_empty());
}

#[test]
fn registry_ignores_itself() {
    let mut registry: PeerRegistry<u64> = PeerRegistry::new(1, addr(1));
    registry.add_resolved(1, addr(5));
    registry.add_resolved(2, addr(1));
    registry.add_bootstrap(addr(1));
    registry.absorb_tombstones(&vec![1, 7]);
    assert!(registry.known_peers().is_empty());
    assert!(registry.bootstraps.is_empty());
    assert_eq!(registry.known_tombstones(), vec![7]);
}

#[test]
fn tombstones_drop_peers_and_their_watermarks() {
    let mut registry: PeerRegistry<u64> = PeerRegistry::new(1, addr(1));
    for id in 2..5u16 {
        registry.add_resolved(id as NodeId, addr(id));
        registry.record_sent_version(addr(id), id as u64);
    }
    registry.absorb_tombstones(&vec![2, 3, 3]);
    assert_eq!(
        registry.known_peers(),
        vec![PeerEntry { node_id: 4, addr: addr(4) }]
    );
    assert!(registry.last_sent_version(&addr(2)).is_none());
    assert_eq!(registry.last_sent_version(&addr(4)), Some(&4));
}

#[test]
fn bootstrap_of_a_resolved_address_is_ignored() {
    let mut registry: PeerRegistry<u64> = PeerRegistry::new(1, addr(1));
    registry.add_bootstrap(addr(2));
    assert!(registry.bootstraps.contains(&addr(2)));
    registry.add_resolved(2, addr(2));
    assert!(registry.bootstraps.is_empty());
    registry.add_bootstrap(addr(2));
    assert!(registry.bootstraps.is_empty());
}

#[test]
fn snapshot_caps_the_known_peers() {
    let mut registry: PeerRegistry<u64> = PeerRegistry::new(1, addr(1));
    for id in 2..100u16 {
        registry.add_resolved(id as NodeId, addr(id));
    }
    registry.add_bootstrap(addr(500));
    let (targets, known, departed) = registry.gossip_snapshot();
    assert_eq!(targets.len(), 99);
    assert_eq!(targets[98], addr(500));
    assert_eq!(known.len(), KNOWN_PEERS_CAP);
    assert!(departed.is_empty());
}

#[test]
fn full_sync_first_and_deltas_after_delivery() {
    let mut node = Node::start(1);
    node.engine.add_peer(2, addr(2));
    node.bump();
    let out = node.engine.tick(&node.state).pop().unwrap();
    assert!(matches!(out.message, GossipMessage::Sync { .. }));
    node.engine.sent(out.addr, true, out.version);
    let delivered = node.state.version();
    node.bump();
    let out = node.engine.tick(&node.state).pop().unwrap();
    match out.message {
        GossipMessage::SyncDelta { from, delta, since, .. } => {
            assert_eq!(from, PeerEntry { node_id: 1, addr: addr(1) });
            assert_eq!(since, delivered);
            assert_eq!(delta, BTreeMap::from([(1, 2)]));
        }
        _ => panic!("expected a delta"),
    }
    // An undelivered message leaves the watermark where it was.
    node.engine.sent(addr(2), false, node.state.version());
    assert_eq!(node.engine.registry.last_sent_version(&addr(2)), Some(&delivered));
}

#[test]
fn delta_without_its_baseline_is_dropped_with_its_message() {
    let mut node = Node::start(1);
    node.hear(GossipMessage::SyncDelta {
        from: PeerEntry { node_id: 2, addr: addr(2) },
        delta: BTreeMap::from([(2, 9)]),
        since: BTreeMap::from([(2, 8)]),
        known_peers: vec![PeerEntry { node_id: 3, addr: addr(3) }],
        departed: vec![4],
    });
    assert_eq!(node.state.value(), 0);
    assert!(node.engine.known_peers().is_empty());
    assert!(node.engine.known_tombstones().is_empty());
}

#[test]
fn message_cannot_bring_back_whom_it_counts_as_departed() {
    let mut node = Node::start(1);
    node.hear(GossipMessage::Sync {
        from: PeerEntry { node_id: 2, addr: addr(2) },
        state: GCounter::new(),
        known_peers: vec![
            PeerEntry { node_id: 2, addr: addr(2) },
            PeerEntry { node_id: 3, addr: addr(3) },
        ],
        departed: vec![2],
    });
    assert!(!node.knows(2));
    assert!(node.knows(3));
}

#[test]
fn farewell_counts_this_node_once() {
    let node = Node::start(1);
    for departed in [vec![5], vec![1, 5]] {
        match node.engine.farewell(vec![], departed) {
            GossipMessage::Goodbye { from, departed, .. } => {
                assert_eq!(from.node_id, 1);
                assert_eq!(departed.iter().filter(|id| **id == 1).count(), 1);
                assert!(departed.contains(&5));
            }
            _ => panic!("expected a goodbye"),
        }
    }
}

#[test]
fn farewell_goes_to_a_few_peers() {
    let mut node = Node::start(1);
    for port in 2..12 {
        node.engine.add_peer(port as NodeId, addr(port));
    }
    let (targets, _) = node.engine.graceful_shutdown();
    assert_eq!(targets.len(), GOODBYE_FANOUT);
    for (i, t) in targets.iter().enumerate() {
        assert!((2..12).any(|p| addr(p) == *t));
        assert!(!targets[..i].contains(t));
    }
}

#[test]
fn gossip_targets_are_picked_without_repetition() {
    let mut node = Node::start(1);
    for port in 2..12 {
        node.engine.add_peer(port as NodeId, addr(port));
    }
    let mut seen = std::collections::BTreeSet::new();
    for _ in 0..200 {
        let out = node.engine.tick(&node.state);
        assert_eq!(out.len(), FANOUT);
        assert_ne!(out[0].addr, out[1].addr);
        seen.insert(out[0].addr);
        seen.insert(out[1].addr);
    }
    assert_eq!(seen.len(), 10);
}

#[test]
fn frames_round_trip() {
    let body: Vec<u8> = (0..1000u32).map(|i| (i % 251) as u8).collect();
    let mut frame = write_frame(&body).unwrap();
    assert_eq!(&frame[..4], &[0, 0, 3, 232]);
    frame.push(77);
    assert_eq!(read_frame(&frame), Ok(body));
    assert_eq!(read_frame(&write_frame(&vec![]).unwrap()), Ok(vec![]));
    assert_eq!(read_length(&[1, 0, 0, 0]), Ok(MAX_FRAME));
    assert_eq!(read_length(&[1, 0, 0, 1]), Err(FrameError::TooLarge));
    assert_eq!(write_frame(&vec![0; MAX_FRAME + 1]), Err(FrameError::TooLarge));
}

#[test]
fn config_defaults_and_builders() {
    let config = GossipConfig::new(1, addr(9));
    assert_eq!(config.interval, DEFAULT_INTERVAL);
    assert_eq!(config.interval, (5, 0));
    assert!(config.enable_mdns && config.peers.is_empty() && config.advertise_addr.is_none());
    let config = config.with_interval((0, 200_000_000)).with_mdns(false).with_peers(vec![addr(3)]);
    let copy = config.clone().with_advertise_addr(addr(4));
    assert_eq!((copy.interval, copy.enable_mdns), ((0, 200_000_000), false));
    assert_eq!(copy.peers, vec![addr(3)]);
    assert_eq!(copy.advertise_addr, Some(addr(4)));
}

#[test]
fn advertised_address() {
    let bound = addr(7777);
    let fixed = GossipConfig::new(1, addr(0));
    assert_eq!(resolve_advertise_addr(&fixed, bound, None), addr(7777));
    let wildcard = GossipConfig::new(1, ((4, 0), 0, 0, 0));
    assert_eq!(resolve_advertise_addr(&wildcard, bound, None), addr(7777));
    assert_eq!(
        resolve_advertise_addr(&wildcard, bound, Some((4, 0x0a00_0001))),
        ((4, 0x0a00_0001), 7777, 0, 0)
    );
    let told = wildcard.with_advertise_addr(addr(5));
    assert_eq!(resolve_advertise_addr(&told, bound, Some((4, 1))), addr(5));
}

#[test]
fn version_4_addresses_are_preferred() {
    assert_eq!(preferred_address(&vec![(6, 1), (4, 2), (4, 3)]), Some((4, 2)));
    assert_eq!(preferred_address(&vec![(6, 1), (6, 2)]), Some((6, 1)));
    assert_eq!(preferred_address(&vec![]), None);
}

#[test]
fn announcements_of_others_are_resolved() {
    let text = "00000000-0000-0000-0000-0000000000aa".to_string();
    let addresses = vec![(4, 9)];
    assert_eq!(
        parse_peer(1, &Some(text.clone()), 80, &addresses),
        Some((0xaa, ((4, 9), 80, 0, 0)))
    );
    assert_eq!(parse_peer(0xaa, &Some(text.clone()), 80, &addresses), None);
    assert_eq!(parse_peer(1, &Some("nonsense".to_string()), 80, &addresses), None);
    assert_eq!(parse_peer(1, &None, 80, &addresses), None);
    assert_eq!(parse_peer(1, &Some(text), 80, &vec![]), None);
    assert_eq!(announced_peer(1, Some(2), 80, &addresses), Some((2, ((4, 9), 80, 0, 0))));
}

#[test]
fn announcement_of_this_node() {
    let service = announcement(0xaa, addr(4321));
    let text = "00000000-0000-0000-0000-0000000000aa";
    assert_eq!(service.service_type, "_crdt-net._tcp.local.");
    assert_eq!(service.instance_name, text);
    assert_eq!(service.host, format!("{text}.local."));
    assert_eq!(service.properties[0], ("node_id".to_string(), text.to_string()));
    assert_eq!(service.properties[1], ("version".to_string(), "1".to_string()));
    assert_eq!(service.port, 4321);
}

#[test]
fn discovery_events_change_the_registry() {
    let mut registry: PeerRegistry<u64> = PeerRegistry::new(1, addr(1));
    let text = "00000000-0000-0000-0000-0000000000aa".to_string();
    let found = DiscoveryEvent::ServiceResolved {
        node_id: Some(text.clone()),
        port: 80,
        addresses: vec![(4, 9)],
    };
    handle_event(1, &mut registry, &found);
    assert_eq!(
        registry.known_peers(),
        vec![PeerEntry { node_id: 0xaa, addr: ((4, 9), 80, 0, 0) }]
    );
    handle_event(1, &mut registry, &DiscoveryEvent::Other);
    assert_eq!(registry.known_peers().len(), 1);
    let gone = DiscoveryEvent::ServiceRemoved { fullname: format!("{text}._crdt-net._tcp.local.") };
    handle_event(1, &mut registry, &gone);
    assert!(registry.known_peers().is_empty());
    assert!(registry.known_tombstones().is_empty());
    assert_eq!(removed_peer(1, Some(1)), None);
    assert_eq!(removed_peer(1, Some(2)), Some(2));
}

#[test]
fn first_label_of_a_name() {
    assert_eq!(first_label("abc.def.local."), "abc");
    assert_eq!(first_label("abc"), "abc");
    assert_eq!(first_label(".abc"), "");
    assert_eq!(first_label(""), "");
}

#[test]
fn delta_gossip_loses_no_pixel_no_add_and_no_paint() {
    let mut a = CanvasDocument::new();
    let mut b = CanvasDocument::new();
    let mut c = CanvasDocument::new();
    a.paint(0, 0, (1, 1, 1, 1), 1);
    b.merge(a.clone());
    let known = b.version();
    a.paint(1, 0, (2, 2, 2, 2), 1);
    a.add_palette_color((9, 9, 9, 9), &1);
    c.merge(a.clone());
    c.paint(0, 0, (3, 3, 3, 3), 3);
    // A delta of one node against an old version, and then one of another that skips what the
    // first one brought.
    b.merge_delta(a.delta_since(&known));
    b.merge_delta(c.delta_since(&b.version()));
    assert_eq!(b.pixels, c.pixels);
    assert_eq!(b.palette_colors(), vec![(9, 9, 9, 9)]);
    assert_eq!(b.paint_counts.value(), 3);
    assert!(c.compare(&b));
    assert!(CanvasDocument::version_includes(&b.version(), &c.version()));
}

#[test]
fn concurrent_merges_both_land() {
    let mut x = GCounter::new();
    x.increment(1);
    let mut a = GCounter::new();
    a.increment(2);
    let mut c = GCounter::new();
    c.increment(3);
    let mut with_a = x.clone();
    with_a.merge(a.clone());
    let mut with_c = x.clone();
    with_c.merge(c.clone());
    x.merge(with_a);
    x.merge(with_c);
    assert!(a.compare(&x) && c.compare(&x));
    assert_eq!(x.value(), 3);
}

#[test]
fn departed_address_is_no_target() {
    let mut registry: PeerRegistry<u64> = PeerRegistry::new(1, addr(1));
    registry.add_resolved(2, addr(2));
    registry.add_resolved(3, addr(3));
    registry.tombstone(2);
    assert_eq!(registry.gossip_snapshot().0, vec![addr(3)]);
}

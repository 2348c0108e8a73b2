//! The application state.
use crdt_canvas::canvas::CanvasDocument;
use crdt_canvas::net::{GossipConfig, GossipEngine, GossipMessage, PeerEntry, SocketAddress};
use crdt_canvas::state::AppState;
use crdt_canvas::traits::{Crdt, DeltaCrdt};

fn make() -> AppState {
    AppState::new(1)
}

#[test]
fn paint_via_mutate() {
    let mut state = make();
    state.mutate(|doc, node_id| {
        doc.paint(1, 2, (255, 0, 0, 255), node_id);
    });
    let pixel = state.canvas().pixels.get(&(1, 2)).map(|r| r.value());
    assert_eq!(pixel, Some((255, 0, 0, 255)));
}

#[test]
fn mutate_returns_value() {
    let mut state = make();
    let result = state.mutate(|_doc, _id| 42);
    assert_eq!(result, 42);
}

#[test]
fn apply_gossip_merges() {
    let mut state = make();
    let mut incoming = CanvasDocument::new();
    incoming.paint(5, 5, (0, 255, 0, 255), 2);
    state.apply_gossip(incoming);
    let pixel = state.canvas().pixels.get(&(5, 5)).map(|r| r.value());
    assert_eq!(pixel, Some((0, 255, 0, 255)));
}

#[test]
fn gossip_merge_advances_clock() {
    let mut state = make();

    // Remote peer painted at a high clock value.
    let mut incoming = CanvasDocument::new();
    let remote_id = 2;
    incoming.paint(0, 0, (255, 0, 0, 255), remote_id);

    state.apply_gossip(incoming);

    // A subsequent local paint should have a higher timestamp
    // than the remote one, because VectorClock merged.
    state.mutate(|doc, node_id| {
        doc.paint(0, 0, (0, 0, 255, 255), node_id);
    });

    // Local write should win (its clock entry is newer).
    let pixel = state.canvas().pixels.get(&(0, 0)).map(|r| r.value());
    assert_eq!(pixel, Some((0, 0, 255, 255)));
}

#[test]
fn add_bootstrap_without_engine_is_noop() {
    let mut state = make();
    // Must not panic when engine not yet wired in.
    state.add_bootstrap(((4, 0x7f00_0001), 9090, 0, 0));
    assert!(state.engine().is_none());
}

#[test]
fn register_ws_client_returns_true_on_first_call() {
    let mut state = make();
    assert!(state.register_ws_client());
}

#[test]
fn register_ws_client_returns_false_on_subsequent_calls() {
    let mut state = make();
    state.register_ws_client();
    assert!(!state.register_ws_client());
    assert!(!state.register_ws_client());
}

#[test]
fn deregister_ws_client_returns_true_only_on_last_disconnect() {
    let mut state = make();
    state.register_ws_client();
    state.register_ws_client();
    assert!(!state.deregister_ws_client());
    assert!(state.deregister_ws_client());
}

#[test]
fn single_register_deregister_round_trips() {
    let mut state = make();
    assert!(state.register_ws_client());
    assert!(state.deregister_ws_client());
    // After full round-trip, next register starts fresh.
    assert!(state.register_ws_client());
}

fn addr(port: u16) -> SocketAddress {
    ((4, 0x7f00_0001), port, 0, 0)
}

fn with_engine() -> AppState {
    let mut state = make();
    let config = GossipConfig::new(1, addr(9000));
    state.set_engine(GossipEngine::run(&config, addr(9000), None));
    state
}

#[test]
fn engine_is_wired_in_once() {
    let mut state = with_engine();
    assert_eq!(state.engine().unwrap().local_addr(), addr(9000));
    let other = GossipConfig::new(1, addr(9001));
    state.set_engine(GossipEngine::run(&other, addr(9001), None));
    assert_eq!(state.engine().unwrap().local_addr(), addr(9000));
}

#[test]
fn add_bootstrap_reaches_the_engine() {
    let mut state = with_engine();
    state.add_bootstrap(addr(9090));
    let engine = state.engine().unwrap();
    assert!(engine.registry.bootstraps.contains(&addr(9090)));
}

#[test]
fn received_sync_is_merged_into_the_canvas() {
    let mut state = with_engine();
    let mut theirs = CanvasDocument::new();
    theirs.paint(3, 3, (9, 9, 9, 9), 2);
    state.receive(GossipMessage::Sync {
        from: PeerEntry { node_id: 2, addr: addr(9002) },
        state: theirs,
        known_peers: vec![],
        departed: vec![],
    });
    assert_eq!(state.canvas().pixels.get(&(3, 3)).map(|r| r.value()), Some((9, 9, 9, 9)));
    assert_eq!(state.engine().unwrap().known_peers().len(), 1);
}

#[test]
fn received_delta_without_its_baseline_is_dropped() {
    let mut state = with_engine();
    let mut theirs = CanvasDocument::new();
    theirs.paint(0, 0, (1, 1, 1, 1), 2);
    let baseline = theirs.version();
    theirs.paint(1, 1, (2, 2, 2, 2), 2);
    state.receive(GossipMessage::SyncDelta {
        from: PeerEntry { node_id: 2, addr: addr(9002) },
        delta: theirs.delta_since(&baseline),
        since: baseline,
        known_peers: vec![],
        departed: vec![],
    });
    assert!(state.canvas().pixels.is_empty());
    assert!(state.engine().unwrap().known_peers().is_empty());
}

#[test]
fn departed_users_are_evicted() {
    let mut state = with_engine();
    state.mutate(|doc, id| {
        doc.add_user(7, &id);
        doc.add_user(8, &id);
    });
    assert!(state.departed_users().is_empty());
    state.receive(GossipMessage::Goodbye {
        from: PeerEntry { node_id: 7, addr: addr(9007) },
        departed: vec![7, 99],
        known_peers: vec![],
    });
    let gone = state.departed_users();
    assert_eq!(gone, vec![7]);
    state.remove_users(&gone);
    assert!(!state.canvas().active_users().contains(&7));
    assert!(state.canvas().active_users().contains(&8));
}

#[test]
fn session_count_wraps() {
    let mut state = make();
    assert!(!state.deregister_ws_client());
    assert!(!state.register_ws_client());
    assert!(state.register_ws_client());
}

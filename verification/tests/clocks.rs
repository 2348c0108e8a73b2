//! Vector clocks.
use crdt_canvas::clocks::{ClockOrder, VectorClock};
use crdt_canvas::traits::{Crdt, DeltaCrdt};
use crdt_canvas::NodeId;

fn n(id: u128) -> NodeId {
    id
}

#[test]
fn new_returns_zero_for_unknown_node() {
    let vc = VectorClock::new();
    assert_eq!(vc.get(&n(1)), 0);
}

#[test]
fn increment_increases_own_component() {
    let mut vc = VectorClock::new();
    vc.increment(n(1));
    vc.increment(n(1));
    assert_eq!(vc.get(&n(1)), 2);
    assert_eq!(vc.get(&n(2)), 0);
}

#[test]
fn mod_merge_takes_element_wise_max() {
    let mut a = VectorClock::new();
    let mut b = VectorClock::new();
    a.increment(n(1));
    a.increment(n(1)); // n1=2
    b.increment(n(1)); // n1=1
    b.increment(n(2)); // sees max=1 from n(1), so n2=2 (Lamport rule)
    a.merge(b);
    assert_eq!(a.get(&n(1)), 2);
    assert_eq!(a.get(&n(2)), 2);
}

#[test]
fn partial_order_before() {
    let mut a = VectorClock::new();
    let mut b = VectorClock::new();
    a.increment(n(1));
    b.increment(n(1));
    b.increment(n(1));
    assert_eq!(a.partial_order(&b), ClockOrder::Before);
}

#[test]
fn partial_order_after() {
    let mut a = VectorClock::new();
    let mut b = VectorClock::new();
    a.increment(n(1));
    a.increment(n(1));
    b.increment(n(1));
    assert_eq!(a.partial_order(&b), ClockOrder::After);
}

#[test]
fn partial_order_equal() {
    let mut a = VectorClock::new();
    let mut b = VectorClock::new();
    a.increment(n(1));
    b.increment(n(1));
    assert_eq!(a.partial_order(&b), ClockOrder::Equal);
}

#[test]
fn partial_order_concurrent() {
    let mut a = VectorClock::new();
    let mut b = VectorClock::new();
    a.increment(n(1));
    b.increment(n(2));
    assert_eq!(a.partial_order(&b), ClockOrder::Concurrent);
}

#[test]
fn lamport_timestamp_is_max_component() {
    let mut vc = VectorClock::new();
    vc.increment(n(1));
    vc.increment(n(1)); // n1=2
    vc.increment(n(2)); // sees max=2, so n2=3
    assert_eq!(vc.lamport_timestamp(), 3);
}

#[test]
fn compare_true_when_other_dominates() {
    let mut a = VectorClock::new();
    let mut b = VectorClock::new();
    a.increment(n(1));
    b.increment(n(1));
    b.increment(n(1));
    assert!(a.compare(&b));
    assert!(!b.compare(&a));
}

#[test]
fn mod_delta_since_empty_replays_all() {
    let mut vc = VectorClock::new();
    vc.increment(n(1));
    vc.increment(n(2));
    let delta = vc.delta_since(&VectorClock::new());
    let mut fresh = VectorClock::new();
    fresh.merge_delta(delta);
    assert_eq!(fresh, vc);
}

#[test]
fn mod_delta_since_current_version_is_empty() {
    let mut vc = VectorClock::new();
    vc.increment(n(1));
    vc.increment(n(2));
    let delta = vc.delta_since(&vc.version());
    assert!(VectorClock::is_empty_delta(&delta));
}

#[test]
fn mod_delta_catches_up_lagging_peer() {
    let mut a = VectorClock::new();
    let mut b = VectorClock::new();
    a.increment(n(1));
    b.merge(a.clone());

    a.increment(n(1));
    a.increment(n(2));

    let delta = a.delta_since(&b.version());
    b.merge_delta(delta);
    assert_eq!(a, b);
}

#[test]
fn mod_delta_is_idempotent() {
    let mut a = VectorClock::new();
    a.increment(n(1));
    a.increment(n(2));
    let delta = a.delta_since(&VectorClock::new());
    let mut b = VectorClock::new();
    b.merge_delta(delta.clone());
    let snapshot = b.clone();
    b.merge_delta(delta);
    assert_eq!(b, snapshot);
}

#[test]
fn version_includes_detects_lagging() {
    let mut a = VectorClock::new();
    a.increment(n(1));
    let fresh = VectorClock::new();
    assert!(!VectorClock::version_includes(&fresh, &a.version()));
    assert!(VectorClock::version_includes(&a.version(), &fresh));
}

#[test]
fn missing_component_equals_zero() {
    let mut a = VectorClock::new();
    a.increment(n(1));
    let mut b = a.clone();
    b.clock.insert(n(2), 0);
    assert_eq!(a, b);
    assert_eq!(b, a);
    b.clock.insert(n(2), 1);
    assert_ne!(a, b);
}

fn samples() -> Vec<VectorClock> {
    let mut all = vec![VectorClock::new()];
    for (x, y, z) in [(1, 0, 0), (0, 2, 0), (3, 1, 0), (1, 1, 1), (0, 0, 4), (2, 2, 2)] {
        let mut clock = VectorClock::new();
        for (id, c) in [(1, x), (2, y), (3, z)] {
            if c > 0 {
                clock.clock.insert(id, c);
            }
        }
        all.push(clock);
    }
    all
}

#[test]
fn clock_merge_is_commutative_associative_idempotent() {
    for a in samples() {
        let mut twice = a.clone();
        twice.merge(a.clone());
        assert_eq!(twice, a);
        for b in samples() {
            let mut ab = a.clone();
            ab.merge(b.clone());
            let mut ba = b.clone();
            ba.merge(a.clone());
            assert_eq!(ab, ba);
            assert!(a.compare(&ab) && b.compare(&ab));
            for c in samples() {
                let mut left = ab.clone();
                left.merge(c.clone());
                let mut bc = b.clone();
                bc.merge(c.clone());
                let mut right = a.clone();
                right.merge(bc);
                assert_eq!(left, right);
            }
        }
    }
}

#[test]
fn clock_delta_equals_merge() {
    for a in samples() {
        for b in samples() {
            let mut merged = b.clone();
            merged.merge(a.clone());
            let mut caught = b.clone();
            caught.merge_delta(a.delta_since(&b.version()));
            assert_eq!(caught, merged);
            assert!(a.compare(&caught));
        }
    }
}

#[test]
fn clock_increment_is_fresh() {
    let mut vc = VectorClock::new();
    vc.clock.insert(n(1), 7);
    vc.clock.insert(n(2), 3);
    assert_eq!(vc.increment(n(2)), 8);
    assert_eq!(vc.get(&n(2)), 8);
    assert_eq!(vc.get(&n(1)), 7);
    assert_eq!(vc.value().len(), 2);
}

//! Counters.
use crdt_canvas::counters::{GCounter, PNCounter};
use crdt_canvas::traits::{Crdt, DeltaCrdt};
use crdt_canvas::NodeId;

fn n(id: u128) -> NodeId {
    id
}

#[test]
fn g_counter_new_starts_at_zero() {
    assert_eq!(GCounter::new().value(), 0);
}

#[test]
fn get_unknown_node_returns_zero() {
    assert_eq!(GCounter::new().get(&n(1)), 0);
}

#[test]
fn increment_increases_count() {
    let mut c = GCounter::new();
    c.increment(n(1));
    c.increment(n(1));
    assert_eq!(c.get(&n(1)), 2);
}

#[test]
fn value_sums_all_nodes() {
    let mut c = GCounter::new();
    c.increment(n(1));
    c.increment(n(1));
    c.increment(n(2));
    assert_eq!(c.value(), 3);
}

#[test]
fn g_counter_merge_takes_element_wise_max() {
    let mut a = GCounter::new();
    a.increment(n(1));
    a.increment(n(1)); // n1=2
    let mut b = GCounter::new();
    b.increment(n(1)); // n1=1
    b.increment(n(2)); // n2=1
    a.merge(b);
    assert_eq!(a.get(&n(1)), 2);
    assert_eq!(a.get(&n(2)), 1);
    assert_eq!(a.value(), 3);
}

#[test]
fn g_counter_merge_commutativity() {
    let mut a = GCounter::new();
    a.increment(n(1));
    let mut b = GCounter::new();
    b.increment(n(2));
    let mut ab = a.clone();
    ab.merge(b.clone());
    let mut ba = b.clone();
    ba.merge(a.clone());
    assert_eq!(ab.value(), ba.value());
}

#[test]
fn g_counter_merge_idempotency() {
    let mut a = GCounter::new();
    a.increment(n(1));
    let before = a.value();
    a.merge(a.clone());
    assert_eq!(a.value(), before);
}

#[test]
fn g_counter_compare_subset() {
    let mut a = GCounter::new();
    a.increment(n(1));
    let mut b = GCounter::new();
    b.increment(n(1));
    b.increment(n(1));
    assert!(a.compare(&b));
    assert!(!b.compare(&a));
}

#[test]
fn pn_counter_new_starts_at_zero() {
    assert_eq!(PNCounter::new().value(), 0);
}

#[test]
fn increment_increases_value() {
    let mut c = PNCounter::new();
    c.increment(n(1));
    c.increment(n(1));
    assert_eq!(c.value(), 2);
}

#[test]
fn decrement_decreases_value() {
    let mut c = PNCounter::new();
    c.increment(n(1));
    c.increment(n(1));
    c.decrement(n(1));
    assert_eq!(c.value(), 1);
}

#[test]
fn value_can_be_negative() {
    let mut c = PNCounter::new();
    c.decrement(n(1));
    assert_eq!(c.value(), -1);
}

#[test]
fn pn_counter_merge_commutativity() {
    let mut a = PNCounter::new();
    a.increment(n(1));
    a.decrement(n(1));
    let mut b = PNCounter::new();
    b.increment(n(2));
    let mut ab = a.clone();
    ab.merge(b.clone());
    let mut ba = b.clone();
    ba.merge(a.clone());
    assert_eq!(ab.value(), ba.value());
}

#[test]
fn pn_counter_merge_idempotency() {
    let mut a = PNCounter::new();
    a.increment(n(1));
    a.decrement(n(1));
    let before = a.value();
    a.merge(a.clone());
    assert_eq!(a.value(), before);
}

#[test]
fn pn_counter_compare_subset() {
    let mut a = PNCounter::new();
    a.increment(n(1));
    let mut b = PNCounter::new();
    b.increment(n(1));
    b.increment(n(1));
    assert!(a.compare(&b));
    assert!(!b.compare(&a));
}

#[test]
fn pn_counter_delta_since_empty_replays_all() {
    let mut c = PNCounter::new();
    c.increment(n(1));
    c.increment(n(1));
    c.decrement(n(2));
    let delta = c.delta_since(&PNCounter::new().version());
    let mut fresh = PNCounter::new();
    fresh.merge_delta(delta);
    assert_eq!(fresh.value(), 1);
}

#[test]
fn pn_counter_delta_since_current_version_is_empty() {
    let mut c = PNCounter::new();
    c.increment(n(1));
    c.decrement(n(2));
    let delta = c.delta_since(&c.version());
    assert!(PNCounter::is_empty_delta(&delta));
}

#[test]
fn pn_counter_delta_catches_up_lagging_peer() {
    let mut a = PNCounter::new();
    let mut b = PNCounter::new();
    a.increment(n(1));
    b.merge(a.clone());

    a.increment(n(1));
    a.decrement(n(1));

    let delta = a.delta_since(&b.version());
    b.merge_delta(delta);
    assert_eq!(b.value(), a.value());
}

#[test]
fn pn_counter_delta_is_idempotent() {
    let mut a = PNCounter::new();
    a.increment(n(1));
    a.decrement(n(2));
    let delta = a.delta_since(&PNCounter::new().version());
    let mut b = PNCounter::new();
    b.merge_delta(delta.clone());
    let before = b.value();
    b.merge_delta(delta);
    assert_eq!(b.value(), before);
}

#[test]
fn counter_sum_out_of_range_is_none() {
    let mut c = GCounter::new();
    c.counts.insert(n(1), u64::MAX);
    assert_eq!(c.checked_value(), Some(u64::MAX));
    c.counts.insert(n(2), 1);
    assert_eq!(c.checked_value(), None);
}

#[test]
fn counter_delta_carries_only_what_is_new() {
    let mut a = GCounter::new();
    a.increment(n(1));
    a.increment(n(2));
    let mut b = a.clone();
    a.increment(n(2));
    let delta = a.delta_since(&b.version());
    assert_eq!(delta.len(), 1);
    assert_eq!(delta.get(&n(2)), Some(&2));
    assert!(!GCounter::is_empty_delta(&delta));
    b.merge_delta(delta);
    assert_eq!(a, b);
    assert!(GCounter::is_empty_delta(&a.delta_since(&b.version())));
    assert!(GCounter::version_includes(&b.version(), &a.version()));
}

#[test]
fn counter_merge_never_decreases() {
    let mut a = GCounter::new();
    a.increment(n(1));
    a.increment(n(1));
    let mut b = GCounter::new();
    b.increment(n(1));
    b.increment(n(2));
    let before = a.value();
    a.merge(b.clone());
    assert!(a.value() >= before && a.value() >= b.value());
}

#[test]
fn pn_value_is_the_difference_beyond_the_signed_range() {
    let mut c = PNCounter::new();
    c.increments.counts.insert(n(1), u64::MAX);
    c.decrements.counts.insert(n(1), u64::MAX - 3);
    assert_eq!(c.value(), 3);
}

#[test]
fn pn_version_includes_both_sides() {
    let mut a = PNCounter::new();
    a.increment(n(1));
    let mut b = a.clone();
    b.decrement(n(2));
    assert!(PNCounter::version_includes(&b.version(), &a.version()));
    assert!(!PNCounter::version_includes(&a.version(), &b.version()));
}

#[test]
fn example_of_two_peers() {
    let mut peer_a = GCounter::new();
    peer_a.increment(n(1));
    peer_a.increment(n(1));
    let mut peer_b = GCounter::new();
    peer_b.increment(n(2));
    let mut merged = peer_a.clone();
    merged.merge(peer_b.clone());
    assert_eq!(merged.value(), 3);
    let delta = peer_a.delta_since(&peer_b.version());
    peer_b.merge_delta(delta);
    assert_eq!(peer_b.value(), 3);
}

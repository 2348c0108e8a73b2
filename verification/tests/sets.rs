//! Sets.
use crdt_canvas::sets::{GSet, ORSet, TwoPSet};
use crdt_canvas::traits::{Crdt, DeltaCrdt};
use crdt_canvas::NodeId;
use std::collections::{BTreeMap, BTreeSet};

fn node(n: u128) -> NodeId {
    n
}

#[test]
fn gset_insert_and_contains() {
    let mut set = GSet::new();
    assert!(!set.contains(&"milk"));
    set.insert("milk");
    assert!(set.contains(&"milk"));
}

#[test]
fn duplicate_insert_ignored() {
    let mut set = GSet::new();
    assert!(set.insert("milk")); // first add will be true
    assert!(!set.insert("milk")); // duplicate will be ignored aka. return false
}

#[test]
fn value_returns_all_elements() {
    let mut set = GSet::new();
    set.insert("milk");
    set.insert("eggs");
    let val = set.value();
    assert_eq!(val, BTreeSet::from(["milk", "eggs"]));
}

#[test]
fn merge_is_union() {
    let mut a = GSet::new();
    a.insert("milk");
    let mut b = GSet::new();
    b.insert("eggs");

    a.merge(b);
    assert!(a.contains(&"milk"));
    assert!(a.contains(&"eggs"));
}

#[test]
fn gset_merge_commutativity() {
    let mut a = GSet::new();
    a.insert("milk");
    let mut b = GSet::new();
    b.insert("eggs");

    let mut ab = a.clone();
    ab.merge(b.clone());
    let mut ba = b.clone();
    ba.merge(a.clone());

    assert_eq!(ab.value(), ba.value());
}

#[test]
fn gset_merge_idempotency() {
    let mut a = GSet::new();
    a.insert("milk");
    let before = a.value();
    a.merge(a.clone());
    assert_eq!(a.value(), before);
}

#[test]
fn gset_compare_subset() {
    let mut a = GSet::new();
    a.insert("milk");
    let mut b = GSet::new();
    b.insert("milk");
    b.insert("eggs");

    assert!(a.compare(&b)); // a in b
    assert!(!b.compare(&a)); // b not in a
}

#[test]
fn two_pset_insert_and_contains() {
    let mut set = TwoPSet::new();
    set.insert("milk");
    assert!(set.contains(&"milk"));
}

#[test]
fn remove_makes_element_gone() {
    let mut set = TwoPSet::new();
    set.insert("milk");
    assert!(set.remove("milk"));
    assert!(!set.contains(&"milk"));
}

#[test]
fn remove_is_permanent() {
    let mut set = TwoPSet::new();
    set.insert("milk");
    set.remove("milk");
    assert!(!set.insert("milk"));
    assert!(!set.contains(&"milk"));
}

#[test]
fn two_pset_remove_nonexistent_returns_false() {
    let mut set = TwoPSet::new();
    assert!(!set.remove("milk"));
}

#[test]
fn value_excludes_removed() {
    let mut set = TwoPSet::new();
    set.insert("milk");
    set.insert("eggs");
    set.remove("milk");
    assert_eq!(set.value(), BTreeSet::from(["eggs"]));
}

#[test]
fn two_pset_merge_commutativity() {
    let mut a = TwoPSet::new();
    a.insert("milk");
    let mut b = TwoPSet::new();
    b.insert("eggs");
    b.insert("milk");
    b.remove("milk");

    let mut ab = a.clone();
    ab.merge(b.clone());
    let mut ba = b.clone();
    ba.merge(a.clone());

    assert_eq!(ab.value(), ba.value());
}

#[test]
fn merge_remove_wins_over_add() {
    // peer A has "milk", peer B removed "milk"
    // after merge: "milk" is gone (remove-wins in 2PSet)
    let mut a = TwoPSet::new();
    a.insert("milk");
    let mut b = TwoPSet::new();
    b.insert("milk");
    b.remove("milk");

    a.merge(b);
    assert!(!a.contains(&"milk"));
}

#[test]
fn two_pset_merge_idempotency() {
    let mut a = TwoPSet::new();
    a.insert("milk");
    a.insert("eggs");
    a.remove("milk");
    let before = a.value();
    a.merge(a.clone());
    assert_eq!(a.value(), before);
}

#[test]
fn two_pset_compare_subset() {
    let mut a = TwoPSet::new();
    a.insert("milk");
    let mut b = TwoPSet::new();
    b.insert("milk");
    b.insert("eggs");

    assert!(a.compare(&b));
    assert!(!b.compare(&a));
}

#[test]
fn orset_insert_and_contains() {
    let mut set = ORSet::new();
    let a = node(1);
    assert!(!set.contains(&"milk"));
    set.insert("milk", &a, 1);
    assert!(set.contains(&"milk"));
}

#[test]
fn remove_and_read() {
    let mut set = ORSet::new();
    let a = node(1);
    set.insert("milk", &a, 1);
    set.remove(&"milk");
    assert!(!set.contains(&"milk"));

    // re-add works unlike in TwoPSet
    set.insert("milk", &a, 2);
    assert!(set.contains(&"milk"));
}

#[test]
fn orset_remove_nonexistent_returns_false() {
    let mut set: ORSet<&str> = ORSet::new();
    assert!(!set.remove(&"milk"));
}

#[test]
fn value_returns_active_elements() {
    let mut set = ORSet::new();
    let a = node(1);
    set.insert("milk", &a, 1);
    set.insert("eggs", &a, 2);
    set.remove(&"milk");
    assert_eq!(set.value(), BTreeSet::from(["eggs"]));
}

#[test]
fn concurrent_add_and_remove_add_wins() {
    // Peer A adds "milk", peer B independently adds then removes "milk"
    // After merge: "milk" survives because A's tag was never tombstoned
    let a = node(1);
    let b = node(2);

    let mut peer_a = ORSet::new();
    peer_a.insert("milk", &a, 1);

    let mut peer_b = ORSet::new();
    peer_b.insert("milk", &b, 1);
    peer_b.remove(&"milk");

    peer_a.merge(peer_b);
    assert!(peer_a.contains(&"milk")); // add wins, not removed like in 2P
}

#[test]
fn orset_merge_commutativity() {
    let a = node(1);
    let b = node(2);

    let mut peer_a = ORSet::new();
    peer_a.insert("milk", &a, 1);
    peer_a.insert("bread", &a, 2);

    let mut peer_b = ORSet::new();
    peer_b.insert("eggs", &b, 1);
    peer_b.insert("milk", &b, 2);
    peer_b.remove(&"milk");

    let mut ab = peer_a.clone();
    ab.merge(peer_b.clone());
    let mut ba = peer_b.clone();
    ba.merge(peer_a.clone());

    assert_eq!(ab.value(), ba.value());
}

#[test]
fn orset_merge_idempotency() {
    let mut set = ORSet::new();
    let a = node(1);
    set.insert("milk", &a, 1);
    set.insert("eggs", &a, 2);
    set.remove(&"milk");
    let before = set.value();
    set.merge(set.clone());
    assert_eq!(set.value(), before);
}

#[test]
fn orset_merge_associativity() {
    let a = node(1);
    let b = node(2);
    let c = node(3);

    let mut peer_a = ORSet::new();
    peer_a.insert("milk", &a, 1);
    let mut peer_b = ORSet::new();
    peer_b.insert("eggs", &b, 1);
    let mut peer_c = ORSet::new();
    peer_c.insert("bread", &c, 1);

    // (A merge B) merge C
    let mut ab_c = peer_a.clone();
    ab_c.merge(peer_b.clone());
    ab_c.merge(peer_c.clone());

    // A merge (B merge C)
    let mut a_bc = peer_a.clone();
    let mut bc = peer_b.clone();
    bc.merge(peer_c.clone());
    a_bc.merge(bc);

    assert_eq!(ab_c.value(), a_bc.value());
}

#[test]
fn orset_compare_subset() {
    let a = node(1);
    let b = node(2);

    let mut small = ORSet::new();
    small.insert("milk", &a, 1);

    let mut big = ORSet::new();
    big.insert("milk", &a, 1);
    big.insert("eggs", &b, 1);

    assert!(small.compare(&big));
    assert!(!big.compare(&small));
}

#[test]
fn delta_omits_already_seen_tombstones() {
    let a = node(1);
    let mut sender = ORSet::new();
    sender.insert("milk", &a, 1);
    sender.remove(&"milk");
    // Tombstone now exists in `removed_tags` with seq=1.

    let post_removal_version = sender.version();
    let delta = sender.delta_since(&post_removal_version);
    assert!(
        delta.adds.is_empty(),
        "no new adds since post-removal version"
    );
    assert!(
        delta.removed_tags.is_empty(),
        "tombstone already known at the post-removal version must be filtered out"
    );
    assert!(<ORSet<&str> as DeltaCrdt>::is_empty_delta(&delta));
}

#[test]
fn delta_includes_tombstones_for_fresh_receiver() {
    let a = node(1);
    let mut sender = ORSet::new();
    sender.insert("milk", &a, 1);
    sender.remove(&"milk");

    let delta = sender.delta_since(&BTreeMap::new());
    assert_eq!(delta.removed_tags.len(), 1, "fresh receiver gets tombstone");

    // Apply to a fresh replica and verify tombstone propagated.
    let mut receiver: ORSet<&str> = ORSet::new();
    receiver.merge_delta(delta);
    assert!(!receiver.contains(&"milk"));
    assert!(receiver
        .removed_tags
        .iter()
        .any(|t| t.0 == a && t.1 == 1));
}

#[test]
fn second_removal_finds_nothing() {
    let mut set = TwoPSet::new();
    set.insert("milk");
    assert!(set.remove("milk"));
    assert!(!set.remove("milk"));
}

#[test]
fn numbers_can_be_elements() {
    let mut set = GSet::new();
    assert!(set.insert(7u64));
    assert!(!set.insert(7u64));
    assert!(set.contains(&7));
    assert!(!set.contains(&8));
}

fn orset(ops: &[(u8, u128, u64, bool)]) -> ORSet<u8> {
    let mut set = ORSet::new();
    for (element, id, seq, remove) in ops {
        if *remove {
            set.remove(element);
        } else {
            set.insert(*element, id, *seq);
        }
    }
    set
}

fn orset_samples() -> Vec<ORSet<u8>> {
    vec![
        ORSet::new(),
        orset(&[(1, 1, 1, false)]),
        orset(&[(1, 1, 1, false), (1, 1, 1, true)]),
        orset(&[(1, 2, 1, false), (2, 2, 2, false)]),
        orset(&[(1, 2, 1, false), (2, 2, 2, false), (2, 0, 0, true), (2, 2, 3, false)]),
    ]
}

#[test]
fn orset_merge_is_commutative_associative_idempotent() {
    for a in orset_samples() {
        let mut twice = a.clone();
        twice.merge(a.clone());
        assert_eq!(twice, a);
        for b in orset_samples() {
            let mut ab = a.clone();
            ab.merge(b.clone());
            let mut ba = b.clone();
            ba.merge(a.clone());
            assert_eq!(ab, ba);
            for c in orset_samples() {
                let mut left = ab.clone();
                left.merge(c.clone());
                let mut bc = b.clone();
                bc.merge(c.clone());
                let mut right = a.clone();
                right.merge(bc);
                assert_eq!(left, right);
            }
        }
    }
}

#[test]
fn orset_readd_after_remove() {
    let mut set = orset(&[(1, 1, 1, false), (1, 0, 0, true)]);
    assert!(!set.contains(&1));
    set.insert(1, &1, 2);
    assert!(set.contains(&1));
    let mut other = orset(&[(1, 1, 1, false)]);
    other.merge(set.clone());
    assert_eq!(other, set);
}

#[test]
fn orset_delta_of_every_tag() {
    let mut set = orset(&[(1, 1, 1, false), (1, 2, 5, false), (2, 1, 3, false)]);
    set.remove(&2);
    let mut delta = set.delta_since(&BTreeMap::new());
    delta.adds.sort();
    assert_eq!(delta.adds, vec![(1, (1, 1)), (1, (2, 5))]);
    assert_eq!(delta.removed_tags, BTreeSet::from([(1, 3)]));
    assert_eq!(set.version(), BTreeMap::from([(1, 3), (2, 5)]));
    let mut fresh = ORSet::new();
    fresh.merge_delta(delta.clone());
    fresh.merge_delta(delta);
    assert_eq!(fresh, set);
    let partial = set.copied_delta_since(&BTreeMap::from([(1, 3)]));
    assert_eq!(partial.adds, vec![(1, (2, 5))]);
    assert!(partial.removed_tags.is_empty());
    assert!(ORSet::<u8>::version_includes(&set.version(), &BTreeMap::from([(1, 2)])));
    assert!(!ORSet::<u8>::version_includes(&set.version(), &BTreeMap::from([(3, 1)])));
}

#[test]
fn orset_tombstone_of_a_seen_add_needs_a_full_merge() {
    let mut receiver = orset(&[(1, 1, 1, false)]);
    let mut sender = receiver.clone();
    sender.remove(&1);
    let delta = sender.delta_since(&receiver.version());
    assert!(ORSet::<u8>::is_empty_delta(&delta));
    receiver.merge_delta(delta);
    assert!(receiver.contains(&1));
    receiver.merge(sender);
    assert!(!receiver.contains(&1));
}

//! Registers.
use crdt_canvas::clocks::VectorClock;
use crdt_canvas::registers::{LWWRegister, MVRegister};
use crdt_canvas::traits::{Crdt, DeltaCrdt};
use crdt_canvas::NodeId;

fn n(id: u128) -> NodeId {
    id
}

#[test]
fn lww_value_returns_initial() {
    let r = LWWRegister::new(42u32, 0, n(1));
    assert_eq!(r.value(), 42);
}

#[test]
fn lww_merge_higher_timestamp_wins() {
    let a = LWWRegister::new(1u32, 10, n(1));
    let b = LWWRegister::new(2u32, 5, n(2));
    let mut r1 = a.clone();
    r1.merge(b.clone());
    assert_eq!(r1.value(), 1);
    let mut r2 = b.clone();
    r2.merge(a.clone());
    assert_eq!(r2.value(), 1);
}

#[test]
fn lww_merge_equal_timestamp_higher_node_wins() {
    let a = LWWRegister::new(1u32, 5, n(2));
    let b = LWWRegister::new(2u32, 5, n(1));
    let mut a1 = a.clone();
    a1.merge(b.clone());
    let mut b1 = b.clone();
    b1.merge(a.clone());
    assert_eq!(a1, b1);
}

#[test]
fn lww_set_updates_when_newer() {
    let mut r = LWWRegister::new(1u32, 1, n(1));
    r.set(99, 5, n(1));
    assert_eq!(r.value(), 99);
}

#[test]
fn lww_set_ignores_older_write() {
    let mut r = LWWRegister::new(1u32, 10, n(1));
    r.set(99, 3, n(1));
    assert_eq!(r.value(), 1);
}

#[test]
fn lww_compare_other_dominates() {
    let a = LWWRegister::new(1u32, 5, n(1));
    let b = LWWRegister::new(2u32, 10, n(1));
    assert!(a.compare(&b));
    assert!(!b.compare(&a));
}

#[test]
fn mv_new_is_empty() {
    let r: MVRegister<u32> = MVRegister::new();
    assert!(r.value().is_empty());
}

#[test]
fn mv_single_write_returns_one_value() {
    let mut r = MVRegister::new();
    let mut vc = VectorClock::new();
    vc.increment(n(1));
    r.write(42u32, vc);
    assert_eq!(r.value(), vec![42]);
}

#[test]
fn mv_sequential_write_keeps_latest() {
    let mut r = MVRegister::new();
    let mut vc1 = VectorClock::new();
    vc1.increment(n(1));
    let mut vc2 = vc1.clone();
    vc2.increment(n(1));
    r.write(1u32, vc1);
    r.write(2u32, vc2);
    assert_eq!(r.value(), vec![2]);
}

#[test]
fn mv_concurrent_writes_keeps_both() {
    let mut r = MVRegister::new();
    let mut vc_a = VectorClock::new();
    vc_a.increment(n(1));
    let mut vc_b = VectorClock::new();
    vc_b.increment(n(2));
    r.write(1u32, vc_a);
    r.write(2u32, vc_b);
    let mut vals = r.value();
    vals.sort();
    assert_eq!(vals, vec![1, 2]);
}

#[test]
fn mv_merge_unions_concurrent_entries() {
    let mut vc_a = VectorClock::new();
    vc_a.increment(n(1));
    let mut vc_b = VectorClock::new();
    vc_b.increment(n(2));
    let mut ra = MVRegister::new();
    ra.write(1u32, vc_a.clone());
    let mut rb = MVRegister::new();
    rb.write(2u32, vc_b.clone());
    ra.merge(rb);
    let mut vals = ra.value();
    vals.sort();
    assert_eq!(vals, vec![1, 2]);
}

#[test]
fn mv_merge_discards_dominated_entries() {
    let mut vc1 = VectorClock::new();
    vc1.increment(n(1));
    let mut vc2 = vc1.clone();
    vc2.increment(n(1));
    let mut ra = MVRegister::new();
    ra.write(1u32, vc1);
    let mut rb = MVRegister::new();
    rb.write(2u32, vc2);
    ra.merge(rb);
    assert_eq!(ra.value(), vec![2]);
}

#[test]
fn lww_set_reports_whether_it_won() {
    let mut r = LWWRegister::new(1u32, 5, n(2));
    assert!(!r.set(2, 5, n(2)));
    assert!(!r.set(2, 5, n(1)));
    assert!(r.set(3, 5, n(3)));
    assert_eq!((r.value(), r.timestamp(), r.node_id()), (3, 5, n(3)));
}

#[test]
fn lww_delta_is_sent_only_where_it_wins() {
    let r = LWWRegister::new(7u32, 3, n(2));
    assert!(LWWRegister::is_empty_delta(&r.delta_since(&r.version())));
    assert!(r.delta_since(&(0, 0)).is_some());
    assert!(r.delta_since(&(3, n(1))).is_some());
    assert!(r.delta_since(&(4, 0)).is_none());
    let mut old = LWWRegister::new(1u32, 1, n(1));
    old.merge_delta(r.delta_since(&old.version()));
    assert_eq!(old, r);
    assert!(LWWRegister::<u32>::version_includes(&(3, n(2)), &(3, n(1))));
    assert!(!LWWRegister::<u32>::version_includes(&(3, n(1)), &(3, n(2))));
}

fn mv(writes: &[(&[(u128, u64)], u32)]) -> MVRegister<u32> {
    let mut reg = MVRegister::new();
    for (components, value) in writes {
        let mut clock = VectorClock::new();
        for (id, c) in *components {
            clock.clock.insert(*id, *c);
        }
        reg.write(*value, clock);
    }
    reg
}

fn mv_samples() -> Vec<MVRegister<u32>> {
    vec![
        MVRegister::new(),
        mv(&[(&[(1, 1)], 1)]),
        mv(&[(&[(2, 1)], 2)]),
        mv(&[(&[(1, 1)], 1), (&[(2, 1)], 2)]),
        mv(&[(&[(1, 2), (2, 1)], 3)]),
        mv(&[(&[(3, 1)], 4), (&[(1, 2), (2, 1)], 3)]),
    ]
}

#[test]
fn mv_merge_is_commutative_associative_idempotent() {
    for a in mv_samples() {
        let mut twice = a.clone();
        twice.merge(a.clone());
        assert!(twice == a);
        for b in mv_samples() {
            let mut ab = a.clone();
            ab.merge(b.clone());
            let mut ba = b.clone();
            ba.merge(a.clone());
            assert!(ab == ba);
            assert!(a.compare(&ab) && b.compare(&ab));
            for c in mv_samples() {
                let mut left = ab.clone();
                left.merge(c.clone());
                let mut bc = b.clone();
                bc.merge(c.clone());
                let mut right = a.clone();
                right.merge(bc);
                assert!(left == right);
            }
        }
    }
}

#[test]
fn mv_stale_write_is_ignored_and_same_time_replaces() {
    let mut r = mv(&[(&[(1, 2)], 5)]);
    let mut old = VectorClock::new();
    old.clock.insert(1, 1);
    r.write(9, old);
    assert_eq!(r.value(), vec![5]);
    let mut same = VectorClock::new();
    same.clock.insert(1, 2);
    r.write(6, same);
    assert_eq!(r.value(), vec![6]);
}

#[test]
fn mv_delta_carries_unseen_entries() {
    let a = mv(&[(&[(1, 1)], 1), (&[(2, 1)], 2)]);
    let mut b = mv(&[(&[(1, 1)], 1)]);
    let delta = a.delta_since(&b.version());
    assert_eq!(delta.value(), vec![2]);
    b.merge_delta(delta);
    assert!(a == b);
    assert!(MVRegister::is_empty_delta(&a.delta_since(&a.version())));
    assert!(MVRegister::<u32>::version_includes(&b.version(), &a.version()));
}

#[test]
fn mv_delta_carries_what_no_single_entry_covers() {
    let sender = mv(&[(&[(1, 1), (2, 1)], 7)]);
    let mut receiver = mv(&[(&[(1, 1)], 1), (&[(2, 1)], 2)]);
    assert!(!MVRegister::<u32>::version_includes(&receiver.version(), &sender.version()));
    let delta = sender.delta_since(&receiver.version());
    assert_eq!(delta.value(), vec![7]);
    receiver.merge_delta(delta);
    assert!(sender.compare(&receiver));
    assert_eq!(receiver.value(), vec![7]);
}

#[test]
fn mv_version_is_the_clocks_of_the_entries() {
    let reg = mv(&[(&[(1, 1)], 1), (&[(2, 1)], 2)]);
    let version = reg.version();
    assert_eq!(version.len(), 2);
    assert_eq!(version[0].get(&1), 1);
    assert_eq!(version[1].get(&2), 1);
    let copy = MVRegister::<u32>::copy_version(&version);
    assert!(MVRegister::<u32>::version_includes(&copy, &version));
    assert!(!MVRegister::<u32>::version_includes(&vec![], &version));
    assert!(MVRegister::<u32>::version_includes(&vec![], &vec![]));
}

#[test]
fn lww_receiver_without_a_register_gets_any_register() {
    let r = LWWRegister::new(7u32, 0, n(0));
    assert_eq!(r.delta_since(&(0, n(0))), Some(r.clone()));
    let mut other = LWWRegister::new(9u32, 0, n(0));
    other.merge_delta(r.delta_since(&other.version()));
    assert_eq!(other.value(), 9);
    let later = LWWRegister::new(7u32, 0, n(1));
    assert_eq!(later.delta_since(&later.version()), None);
}

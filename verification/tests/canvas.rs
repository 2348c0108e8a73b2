//! The canvas document and its views.
use crdt_canvas::canvas::{
    CanvasDeltaView, CanvasDocument, CanvasView, PixelCoord, Rgba, DEFAULT_PIXEL,
};
use crdt_canvas::clocks::VectorClock;
use crdt_canvas::registers::LWWRegister;
use crdt_canvas::traits::{Crdt, DeltaCrdt};
use crdt_canvas::NodeId;

fn node(id: u128) -> NodeId {
    id
}

fn get_pixel(doc: &CanvasDocument, x: u8, y: u8) -> Rgba {
    let coord: PixelCoord = (x, y);
    doc.pixels.get(&coord).map(|r| r.value()).unwrap_or(DEFAULT_PIXEL)
}

#[test]
fn paint_and_get() {
    let mut d = CanvasDocument::new();
    d.paint(1, 2, (255, 0, 0, 255), node(1));
    assert_eq!(get_pixel(&d, 1, 2), (255, 0, 0, 255));
}

#[test]
fn default_pixel_white() {
    assert_eq!(get_pixel(&CanvasDocument::new(), 0, 0), DEFAULT_PIXEL);
}

#[test]
fn lww_higher_ts_wins() {
    let mut a = CanvasDocument::new();
    let mut b = CanvasDocument::new();
    // a paints twice (ts=2), b paints once (ts=1)
    a.paint(0, 0, (255, 0, 0, 255), node(1));
    a.paint(0, 0, (255, 0, 0, 255), node(1));
    b.paint(0, 0, (0, 0, 255, 255), node(2));
    a.merge(b);
    assert_eq!(get_pixel(&a, 0, 0), (255, 0, 0, 255));
}

#[test]
fn paint_after_merge_beats_higher_remote_count() {
    let mut a = CanvasDocument::new();
    let mut b = CanvasDocument::new();

    for _ in 0..5 {
        b.paint(0, 0, (255, 0, 0, 255), node(2));
    }

    a.merge(b);
    a.paint(0, 0, (0, 0, 255, 255), node(1));

    assert_eq!(get_pixel(&a, 0, 0), (0, 0, 255, 255));
}

#[test]
fn merge_commutative() {
    let mut a = CanvasDocument::new();
    let mut b = CanvasDocument::new();
    a.paint(0, 0, (255, 0, 0, 255), node(1));
    a.paint(0, 0, (255, 0, 0, 255), node(1));
    b.paint(0, 0, (0, 0, 255, 255), node(2));

    let mut a1 = a.clone();
    a1.merge(b.clone());
    let mut b1 = b.clone();
    b1.merge(a.clone());
    assert_eq!(get_pixel(&a1, 0, 0), get_pixel(&b1, 0, 0));
}

#[test]
fn merge_idempotent() {
    let user = 7;
    let mut a = CanvasDocument::new();
    a.paint(0, 0, (1, 2, 3, 4), node(1));
    a.add_user(user, &node(1));
    let b = a.clone();
    a.merge(b);
    assert_eq!(get_pixel(&a, 0, 0), (1, 2, 3, 4));
    assert!(a.active_users().contains(&user));
}

#[test]
fn user_add_wins_on_concurrent_remove() {
    let user = 99;
    let mut peer_a = CanvasDocument::new();
    peer_a.add_user(user, &node(1));

    let mut peer_b = CanvasDocument::new();
    peer_b.add_user(user, &node(2));
    peer_b.remove_user(&user, node(2));

    let mut a1 = peer_a.clone();
    a1.merge(peer_b.clone());
    assert!(a1.active_users().contains(&user));

    let mut b1 = peer_b.clone();
    b1.merge(peer_a.clone());
    assert!(b1.active_users().contains(&user));
}

#[test]
fn palette_add_and_colors() {
    let mut d = CanvasDocument::new();
    d.add_palette_color((255, 0, 0, 255), &node(1));
    d.add_palette_color((0, 255, 0, 255), &node(1));
    let colors = d.palette_colors();
    assert_eq!(colors.len(), 2);
    assert!(colors.contains(&(255, 0, 0, 255)));
    assert!(colors.contains(&(0, 255, 0, 255)));
}

#[test]
fn paint_increments_paint_total() {
    let mut d = CanvasDocument::new();
    d.paint(0, 0, (1, 2, 3, 4), node(1));
    d.paint(1, 1, (5, 6, 7, 8), node(1));
    assert_eq!(d.paint_counts.value(), 2);
}

#[test]
fn delta_since_empty_replays_full_state() {
    let mut a = CanvasDocument::new();
    a.paint(1, 2, (10, 20, 30, 40), node(1));
    a.add_palette_color((255, 0, 0, 255), &node(1));

    let delta = a.delta_since(&VectorClock::new());
    let mut b = CanvasDocument::new();
    b.merge_delta(delta);

    assert_eq!(get_pixel(&b, 1, 2), (10, 20, 30, 40));
    assert!(b.palette_colors().contains(&(255, 0, 0, 255)));
}

#[test]
fn canvas_delta_since_current_version_is_empty() {
    let mut a = CanvasDocument::new();
    a.paint(0, 0, (1, 2, 3, 4), node(1));
    a.add_palette_color((10, 20, 30, 40), &node(1));

    let delta = a.delta_since(&a.version());
    assert!(
        CanvasDocument::is_empty_delta(&delta),
        "delta to self should be empty"
    );
}

#[test]
fn delta_catches_up_lagging_replica() {
    let mut a = CanvasDocument::new();
    let mut b = CanvasDocument::new();

    a.paint(0, 0, (255, 0, 0, 255), node(1));
    b.merge(a.clone()); // bring B current

    // Now A pulls ahead.
    a.paint(1, 1, (0, 255, 0, 255), node(1));
    a.add_palette_color((0, 0, 255, 255), &node(1));

    let delta = a.delta_since(&b.version());
    b.merge_delta(delta);

    assert_eq!(get_pixel(&b, 0, 0), (255, 0, 0, 255));
    assert_eq!(get_pixel(&b, 1, 1), (0, 255, 0, 255));
    assert!(b.palette_colors().contains(&(0, 0, 255, 255)));
}

#[test]
fn canvas_delta_is_idempotent() {
    let mut a = CanvasDocument::new();
    a.paint(3, 4, (5, 6, 7, 8), node(1));
    let delta = a.delta_since(&VectorClock::new());

    let mut b = CanvasDocument::new();
    b.merge_delta(delta.clone());
    let snapshot = b.clone();
    b.merge_delta(delta);

    // Re-applying the same delta leaves the state unchanged.
    assert_eq!(get_pixel(&b, 3, 4), get_pixel(&snapshot, 3, 4));
    assert_eq!(b.paint_counts.value(), snapshot.paint_counts.value());
}

#[test]
fn delta_propagates_tombstones() {
    let mut a = CanvasDocument::new();
    a.add_palette_color((1, 2, 3, 4), &node(1));
    a.add_palette_color((5, 6, 7, 8), &node(1));
    a.remove_palette_color(&(1, 2, 3, 4), node(1));
    let mut b = CanvasDocument::new();
    b.merge_delta(a.delta_since(&VectorClock::new()));

    assert!(b.palette_colors().contains(&(5, 6, 7, 8)));
    assert!(!b.palette_colors().contains(&(1, 2, 3, 4)));
}

#[test]
fn idle_delta_after_palette_removal_is_empty() {
    let mut a = CanvasDocument::new();
    a.add_palette_color((1, 2, 3, 4), &node(1));
    a.remove_palette_color(&(1, 2, 3, 4), node(1));

    // Re-querying at the post-removal version must produce an empty
    // delta — nothing has happened since.
    let delta = a.delta_since(&a.version());
    assert!(
        CanvasDocument::is_empty_delta(&delta),
        "idle delta after tombstone must be empty so WS skip fires"
    );
}

#[test]
fn remove_cursor_entry_removes_cursor_and_produces_delta() {
    let user = 42;
    let mut d = CanvasDocument::new();
    d.update_cursor(user, 5, 10, node(1));
    assert!(d.cursors.contains_key(&user));

    let version_before = d.version();
    d.remove_cursor_entry(&user, node(1));

    assert!(!d.cursors.contains_key(&user));
    // Clock must advance so the removal is visible as a non-empty delta.
    let delta = d.delta_since(&version_before);
    assert!(!CanvasDocument::is_empty_delta(&delta));
}

#[test]
fn remove_cursor_entry_is_noop_when_absent() {
    let mut d = CanvasDocument::new();
    let version_before = d.version();
    d.remove_cursor_entry(&99, node(1));
    // Clock still advances even if cursor wasn't present (same as remove_user).
    let delta = d.delta_since(&version_before);
    assert!(!CanvasDocument::is_empty_delta(&delta));
}

#[test]
fn delta_view_paint_total_present_after_non_paint_mutation() {
    let mut doc = CanvasDocument::new();

    doc.paint(0, 0, (255, 0, 0, 255), node(1)); // clock tick = 1, GCounter = 1
    doc.update_cursor(42, 5, 5, node(1)); // clock tick = 2, GCounter still 1
    let v_after_cursor = doc.version(); // last_seen: clock tick for node_1 = 2

    // Next paint: GCounter → 2, while the clock tick of node_1 goes from 2 to 3. The count is
    // not a tick, and the total must be there all the same.
    doc.paint(1, 1, (0, 255, 0, 255), node(1));
    let delta = doc.delta_since(&v_after_cursor);
    let view = CanvasDeltaView::project(&delta, &doc);

    assert_eq!(
        view.paint_total,
        Some(2),
        "paint_total must be present even when a non-paint mutation preceded this delta"
    );
}

#[test]
fn version_includes_detects_lagging_receiver() {
    let mut sender = CanvasDocument::new();
    sender.paint(0, 0, (1, 2, 3, 4), node(1));
    sender.paint(1, 1, (5, 6, 7, 8), node(1));

    let fresh_receiver_version = CanvasDocument::new().version();
    assert!(
        !CanvasDocument::version_includes(&fresh_receiver_version, &sender.version()),
        "fresh receiver must NOT include sender's advanced baseline"
    );

    let caught_up_receiver = sender.clone();
    assert!(
        CanvasDocument::version_includes(&caught_up_receiver.version(), &sender.version()),
        "caught-up receiver MUST include sender's baseline"
    );
}

#[test]
fn canvas_merge_evicts_cursor_of_departed_user() {
    let mut a = CanvasDocument::new();
    a.add_user(5, &node(1));
    a.update_cursor(5, 3, 4, node(1));
    a.update_cursor(6, 1, 1, node(1));
    let mut b = a.clone();
    b.remove_user(&5, node(2));

    a.merge(b.clone());
    assert!(!a.active_users().contains(&5));
    assert!(!a.cursors.contains_key(&5));
    // A session that never was an active user keeps its cursor.
    assert!(a.cursors.contains_key(&6));
}

#[test]
fn canvas_merge_is_associative() {
    let mut a = CanvasDocument::new();
    a.paint(0, 0, (1, 1, 1, 1), node(1));
    let mut b = CanvasDocument::new();
    b.paint(0, 0, (2, 2, 2, 2), node(2));
    b.add_palette_color((7, 7, 7, 7), &node(2));
    let mut c = b.clone();
    c.remove_palette_color(&(7, 7, 7, 7), node(3));
    let mut left = a.clone();
    left.merge(b.clone());
    left.merge(c.clone());
    let mut right = b.clone();
    right.merge(c.clone());
    let mut all = a.clone();
    all.merge(right);
    assert_eq!(left.pixels, all.pixels);
    assert_eq!(left.palette, all.palette);
    assert_eq!(left.clock, all.clock);
    assert_eq!(left.paint_counts, all.paint_counts);
}

#[test]
fn canvas_compare_after_merge() {
    let mut a = CanvasDocument::new();
    a.paint(0, 0, (1, 1, 1, 1), node(1));
    let mut b = CanvasDocument::new();
    b.update_cursor(9, 1, 2, node(2));
    assert!(!a.compare(&b));
    let before = a.clone();
    a.merge(b.clone());
    assert!(before.compare(&a));
    assert!(b.compare(&a));
    assert!(!a.compare(&before));
}

#[test]
fn canvas_value_is_the_document() {
    let mut a = CanvasDocument::new();
    a.paint(1, 1, (1, 2, 3, 4), node(1));
    let copy = a.value();
    a.paint(1, 1, (5, 6, 7, 8), node(1));
    assert_eq!(get_pixel(&copy, 1, 1), (1, 2, 3, 4));
    assert_eq!(get_pixel(&a, 1, 1), (5, 6, 7, 8));
}

#[test]
fn remove_user_and_palette_color_tell_whether_they_were_present() {
    let mut d = CanvasDocument::new();
    d.add_user(5, &node(1));
    d.update_cursor(5, 0, 0, node(1));
    assert!(d.remove_user(&5, node(1)));
    assert!(!d.cursors.contains_key(&5));
    assert!(!d.remove_user(&5, node(1)));
    d.add_palette_color((1, 1, 1, 1), &node(1));
    assert!(d.remove_palette_color(&(1, 1, 1, 1), node(1)));
    assert!(!d.remove_palette_color(&(1, 1, 1, 1), node(1)));
}

#[test]
fn palette_colors_are_sorted() {
    let mut d = CanvasDocument::new();
    for color in [(9, 0, 0, 0), (1, 2, 3, 4), (1, 2, 3, 3), (1, 0, 9, 9)] {
        d.add_palette_color(color, &node(1));
    }
    assert_eq!(
        d.palette_colors(),
        vec![(1, 0, 9, 9), (1, 2, 3, 3), (1, 2, 3, 4), (9, 0, 0, 0)]
    );
}

#[test]
fn leaderboard_counts_and_ranks() {
    let mut d = CanvasDocument::new();
    d.paint(0, 0, (1, 1, 1, 1), node(3));
    d.paint(0, 1, (1, 1, 1, 1), node(2));
    d.paint(0, 2, (1, 1, 1, 1), node(5));
    d.paint(0, 3, (1, 1, 1, 1), node(5));
    // A pixel belongs to its last writer only.
    d.paint(0, 3, (2, 2, 2, 2), node(2));
    d.paint(0, 4, (2, 2, 2, 2), node(5));
    assert_eq!(d.ownership_leaderboard(), vec![(2, 2), (5, 2), (3, 1)]);
}

#[test]
fn view_shows_the_canvas() {
    let mut d = CanvasDocument::new();
    d.paint(12, 205, (1, 2, 3, 4), node(1));
    d.paint(0, 7, (9, 9, 9, 9), node(2));
    d.add_user(0xff, &node(1));
    d.add_user(0x0a, &node(1));
    d.add_palette_color((4, 3, 2, 1), &node(1));
    d.update_cursor(0x0b, 8, 9, node(1));
    let view = CanvasView::from(&d);
    assert_eq!(
        view.pixels,
        vec![("0,7".to_string(), [9, 9, 9, 9]), ("12,205".to_string(), [1, 2, 3, 4])]
    );
    assert_eq!(
        view.active_peers,
        vec![
            "00000000-0000-0000-0000-00000000000a".to_string(),
            "00000000-0000-0000-0000-0000000000ff".to_string()
        ]
    );
    assert_eq!(view.palette, vec![[4, 3, 2, 1]]);
    assert_eq!(view.paint_total, 2);
    assert_eq!(view.leaderboard.len(), 2);
    assert_eq!(view.leaderboard[0].peer_id, "00000000-0000-0000-0000-000000000001");
    assert_eq!(view.leaderboard[0].pixels, 1);
    assert_eq!(
        view.cursors,
        vec![("00000000-0000-0000-0000-00000000000b".to_string(), [8, 9])]
    );
}

#[test]
fn delta_view_shows_only_what_changed() {
    let mut d = CanvasDocument::new();
    d.paint(0, 0, (1, 1, 1, 1), node(1));
    d.add_palette_color((4, 3, 2, 1), &node(1));
    let seen = d.version();
    d.update_cursor(7, 5, 6, node(1));
    let view = CanvasDeltaView::project(&d.delta_since(&seen), &d);
    assert!(view.pixels.is_empty());
    assert!(view.palette.is_none());
    assert!(view.leaderboard.is_none());
    assert!(view.active_peers.unwrap().is_empty());
    assert_eq!(view.cursors.unwrap()[0].1, [5, 6]);

    d.add_palette_color((9, 9, 9, 9), &node(1));
    d.paint(3, 3, (2, 2, 2, 2), node(1));
    let view = CanvasDeltaView::project(&d.delta_since(&seen), &d);
    assert_eq!(view.pixels, vec![("3,3".to_string(), [2, 2, 2, 2])]);
    assert_eq!(view.palette.unwrap().len(), 2);
    assert_eq!(view.leaderboard.unwrap()[0].pixels, 2);
}

#[test]
fn delta_view_of_repeated_rows_shows_the_last() {
    let d = CanvasDocument::new();
    let mut delta = d.delta_since(&VectorClock::new());
    delta.pixels.push(((1, 1), LWWRegister::new((1, 1, 1, 1), 1, node(1))));
    delta.pixels.push(((1, 1), LWWRegister::new((2, 2, 2, 2), 2, node(1))));
    let view = CanvasDeltaView::project(&delta, &d);
    assert_eq!(view.pixels, vec![("1,1".to_string(), [2, 2, 2, 2])]);
}

#[test]
fn patching_a_view_with_a_delta_gives_the_later_view() {
    let mut d = CanvasDocument::new();
    d.paint(0, 0, (1, 1, 1, 1), node(1));
    d.paint(1, 0, (1, 1, 1, 1), node(1));
    let mut shown = CanvasView::from(&d).pixels;
    let seen = d.version();
    d.paint(1, 0, (2, 2, 2, 2), node(1));
    d.paint(2, 0, (3, 3, 3, 3), node(1));
    for (key, color) in CanvasDeltaView::project(&d.delta_since(&seen), &d).pixels {
        shown.retain(|(k, _)| *k != key);
        shown.push((key, color));
    }
    shown.sort();
    assert_eq!(shown, CanvasView::from(&d).pixels);
}

#[test]
fn merging_a_merge_result_again_changes_nothing() {
    let mut a = CanvasDocument::new();
    a.paint(0, 0, (1, 1, 1, 1), node(1));
    a.add_user(3, &node(1));
    let mut b = CanvasDocument::new();
    b.paint(0, 0, (2, 2, 2, 2), node(2));
    b.update_cursor(9, 1, 1, node(2));
    let mut once = a.clone();
    once.merge(b);
    let mut again = a.clone();
    again.merge(once.clone());
    assert_eq!(again.pixels, once.pixels);
    assert_eq!(again.users, once.users);
    assert_eq!(again.cursors, once.cursors);
    assert_eq!(again.clock, once.clock);
}

#[test]
fn delta_brings_the_paint_total_after_a_non_paint_mutation() {
    let mut a = CanvasDocument::new();
    a.paint(0, 0, (1, 2, 3, 4), node(1));
    a.update_cursor(42, 5, 5, node(1));
    let mut b = a.clone();
    a.paint(1, 1, (5, 6, 7, 8), node(1));
    b.merge_delta(a.delta_since(&b.version()));
    assert_eq!(b.paint_counts.value(), 2);
    assert!(a.compare(&b));
}

#[test]
fn delta_carries_the_counts_of_nodes_that_painted() {
    let mut a = CanvasDocument::new();
    a.paint(0, 0, (1, 1, 1, 1), node(1));
    a.paint(0, 1, (1, 1, 1, 1), node(2));
    let seen = a.version();
    a.paint(0, 2, (1, 1, 1, 1), node(2));
    let delta = a.delta_since(&seen);
    assert_eq!(delta.paint_counts.len(), 1);
    assert_eq!(delta.paint_counts.get(&node(2)), Some(&2));
    assert!(a.delta_since(&a.version()).paint_counts.is_empty());
    assert_eq!(a.delta_since(&VectorClock::new()).paint_counts.len(), 2);
}

#[test]
fn delta_leaves_out_counts_that_did_not_change() {
    let mut a = CanvasDocument::new();
    a.paint(0, 0, (1, 1, 1, 1), node(1));
    let seen = a.version();
    a.update_cursor(42, 5, 5, node(1));
    let delta = a.delta_since(&seen);
    assert!(delta.paint_counts.is_empty());
    assert!(VectorClock::is_empty_delta(&delta.paint_times));
    assert_eq!(a.paint_times.get(&node(1)), 1);
    a.paint(0, 0, (2, 2, 2, 2), node(1));
    assert_eq!(a.delta_since(&seen).paint_counts.get(&node(1)), Some(&2));
    assert_eq!(a.delta_since(&seen).paint_times.get(&node(1)), 3);
}

#[test]
fn delta_view_shows_a_removal_from_the_palette() {
    let mut d = CanvasDocument::new();
    d.add_palette_color((1, 2, 3, 4), &node(1));
    let seen = d.version();
    d.remove_palette_color(&(1, 2, 3, 4), node(1));
    let view = CanvasDeltaView::project(&d.delta_since(&seen), &d);
    assert_eq!(view.palette, Some(vec![]));
    let view = CanvasDeltaView::project(&d.delta_since(&d.version()), &d);
    assert_eq!(view.palette, None);
}

#[test]
fn delta_carries_the_removal_of_what_the_receiver_has() {
    let mut a = CanvasDocument::new();
    a.add_palette_color((1, 2, 3, 4), &node(1));
    a.add_user(7, &node(1));
    let mut b = a.clone();
    a.remove_palette_color(&(1, 2, 3, 4), node(1));
    a.remove_user(&7, node(1));
    let delta = a.delta_since(&b.version());
    assert!(delta.palette.removed_tags.contains(&(node(1), 1)));
    assert!(delta.palette_removals.contains(&((node(1), 1), (node(1), 3))));
    assert!(delta.users.removed_tags.contains(&(node(1), 2)));
    assert!(delta.user_removals.contains(&((node(1), 2), (node(1), 4))));
    b.merge_delta(delta);
    assert!(b.palette_colors().is_empty());
    assert!(b.active_users().is_empty());
    assert!(a.compare(&b));
    assert!(CanvasDocument::is_empty_delta(&a.delta_since(&b.version())));
}

#[test]
fn delta_carries_a_removal_that_another_node_made() {
    let mut a = CanvasDocument::new();
    a.add_palette_color((1, 2, 3, 4), &node(1));
    let mut b = a.clone();
    let mut c = a.clone();
    b.remove_palette_color(&(1, 2, 3, 4), node(2));
    a.merge(b);
    a.paint(0, 0, (9, 9, 9, 9), node(1));
    c.merge_delta(a.delta_since(&c.version()));
    assert!(c.palette_colors().is_empty());
    assert!(a.compare(&c));
}

#[test]
fn removals_of_one_color_by_two_nodes_are_both_kept() {
    let mut a = CanvasDocument::new();
    a.add_palette_color((1, 2, 3, 4), &node(1));
    let mut b = a.clone();
    a.remove_palette_color(&(1, 2, 3, 4), node(1));
    b.remove_palette_color(&(1, 2, 3, 4), node(2));
    let tag = (node(1), 1);
    assert!(!a.compare(&b));
    a.merge(b.clone());
    assert_eq!(a.palette_removals.len(), 2);
    assert!(a.palette_removals.contains(&(tag, (node(1), 2))));
    assert!(a.palette_removals.contains(&(tag, (node(2), 2))));
    assert!(b.compare(&a));
}

#[test]
fn delta_gossip_does_what_full_gossip_does() {
    let mut a = CanvasDocument::new();
    a.paint(0, 0, (1, 1, 1, 1), node(1));
    a.add_user(1, &node(1));
    a.add_palette_color((1, 2, 3, 4), &node(1));
    let mut b = a.clone();
    b.paint(1, 1, (2, 2, 2, 2), node(2));
    b.add_palette_color((5, 6, 7, 8), &node(2));
    a.remove_palette_color(&(1, 2, 3, 4), node(1));
    a.paint(1, 1, (3, 3, 3, 3), node(1));
    a.remove_user(&1, node(1));
    let mut by_delta = b.clone();
    by_delta.merge_delta(a.delta_since(&b.version()));
    let mut by_merge = b.clone();
    by_merge.merge(a);
    assert_eq!(by_delta.pixels, by_merge.pixels);
    assert_eq!(by_delta.users, by_merge.users);
    assert_eq!(by_delta.palette, by_merge.palette);
    assert_eq!(by_delta.paint_counts, by_merge.paint_counts);
    assert_eq!(by_delta.clock, by_merge.clock);
    assert_eq!(by_delta.user_removals, by_merge.user_removals);
    assert_eq!(by_delta.palette_removals, by_merge.palette_removals);
    assert_eq!(by_delta.paint_times, by_merge.paint_times);
    assert_eq!(by_delta.palette_colors(), vec![(5, 6, 7, 8)]);
}

#[test]
fn dropped_cursor_is_not_in_a_delta_view() {
    let mut d = CanvasDocument::new();
    d.update_cursor(42, 5, 10, node(1));
    let seen = d.version();
    d.remove_cursor_entry(&42, node(1));
    assert!(CanvasDeltaView::project(&d.delta_since(&seen), &d).cursors.is_none());
    assert!(CanvasView::from(&d).cursors.is_empty());
}

#[test]
fn canvases_of_a_mesh_agree_on_equal_stamps() {
    let mut a = CanvasDocument::new();
    let mut b = CanvasDocument::new();
    a.paint(0, 0, (1, 1, 1, 1), node(1));
    b.paint(0, 0, (2, 2, 2, 2), node(2));
    let mut ab = a.clone();
    ab.merge(b.clone());
    b.merge(a);
    assert_eq!(ab.pixels, b.pixels);
    assert_eq!(get_pixel(&b, 0, 0), (2, 2, 2, 2));
}

//! What the interface answers.
use crdt_canvas::api::{
    add_palette, add_peer, asset_path, can_paint, choose_asset, connect, cursor, disconnect, get_canvas,
    get_leaderboard, get_palette, has_room, move_cursor, next_delta, node_info, paint,
    remove_palette, session_user, session_user_of, snapshot, split_peers, try_cursor, Asset,
    CursorRequest, PaintRequest, PaletteRequest, Status, WsMessage,
};
use crdt_canvas::net::{GossipConfig, GossipEngine};
use crdt_canvas::state::AppState;
use crdt_canvas::traits::{Crdt, DeltaCrdt};
use uuid::Uuid;

fn make_app() -> AppState {
    AppState::new(Uuid::new_v4().as_u128())
}

#[test]
fn get_canvas_returns_empty_snapshot() {
    assert!(get_canvas(&make_app()).pixels.is_empty());
}

#[test]
fn paint_returns_ok() {
    let mut app = make_app();
    paint(&mut app, &PaintRequest { x: 1, y: 2, color: [255, 0, 0, 255] });
    assert_eq!(app.canvas().pixels.len(), 1);
}

#[test]
fn paint_then_get_shows_pixel() {
    let mut app = make_app();
    paint(&mut app, &PaintRequest { x: 3, y: 4, color: [10, 20, 30, 40] });
    assert_eq!(get_canvas(&app).pixels, vec![("3,4".to_string(), [10, 20, 30, 40])]);
    assert_eq!(get_canvas(&app).paint_total, 1);
}

#[test]
fn node_info_returns_uuid() {
    let app = make_app();
    let info = node_info(&app);
    assert!(Uuid::parse_str(&info.id).is_ok());
    assert_eq!(Uuid::parse_str(&info.id).unwrap().as_u128(), app.node_id());
}

#[test]
fn add_peer_valid_returns_no_content() {
    let mut app = make_app();
    let addr = ((4, 0x7f00_0001), 9090, 0, 0);
    assert_eq!(add_peer(&mut app, Some(addr)), Status::NoContent);
    let config = GossipConfig::new(app.node_id(), ((4, 0), 0, 0, 0));
    app.set_engine(GossipEngine::run(&config, ((4, 0), 9000, 0, 0), None));
    assert_eq!(add_peer(&mut app, Some(addr)), Status::NoContent);
    assert!(app.engine().unwrap().registry.bootstraps.contains(&addr));
}

#[test]
fn add_peer_invalid_returns_bad_request() {
    assert_eq!(add_peer(&mut make_app(), None), Status::BadRequest);
}

#[test]
fn palette_add_and_get() {
    let mut app = make_app();
    let req = PaletteRequest { color: [255, 0, 0, 255] };
    assert_eq!(add_palette(&mut app, &req), Status::Created);
    assert!(get_palette(&app).contains(&[255, 0, 0, 255]));
    assert_eq!(remove_palette(&mut app, &req), Status::NoContent);
    assert!(get_palette(&app).is_empty());
}

#[test]
fn remove_nonexistent_palette_returns_not_found() {
    let mut app = make_app();
    assert_eq!(
        remove_palette(&mut app, &PaletteRequest { color: [1, 2, 3, 4] }),
        Status::NotFound
    );
}

#[test]
fn cursor_valid_uuid_returns_no_content() {
    let mut app = make_app();
    let user = Uuid::new_v4();
    let req = CursorRequest { user_id: user.to_string(), x: 10, y: 20 };
    assert_eq!(cursor(&mut app, &req), Status::NoContent);
    assert_eq!(app.canvas().cursors.get(&user.as_u128()).map(|r| r.value()), Some((10, 20)));
}

#[test]
fn cursor_invalid_uuid_returns_bad_request() {
    let mut app = make_app();
    let req = CursorRequest { user_id: "not-a-uuid".to_string(), x: 0, y: 0 };
    assert_eq!(cursor(&mut app, &req), Status::BadRequest);
    assert!(app.canvas().cursors.is_empty());
    assert_eq!(move_cursor(&mut app, None, 0, 0), Status::BadRequest);
    assert_eq!(move_cursor(&mut app, Some(5), 1, 2), Status::NoContent);
}

#[test]
fn leaderboard_lists_painters() {
    let mut app = AppState::new(0xab);
    paint(&mut app, &PaintRequest { x: 0, y: 0, color: [1, 1, 1, 1] });
    paint(&mut app, &PaintRequest { x: 0, y: 1, color: [1, 1, 1, 1] });
    let board = get_leaderboard(&app);
    assert_eq!(board.len(), 1);
    assert_eq!(board[0].peer_id, "00000000-0000-0000-0000-0000000000ab");
    assert_eq!(board[0].pixels, 2);
}

#[test]
fn first_connection_joins_and_last_one_leaves() {
    let mut app = AppState::new(9);
    connect(&mut app);
    connect(&mut app);
    assert!(app.canvas().active_users().contains(&9));
    move_cursor(&mut app, Some(77), 1, 1);
    disconnect(&mut app, 77);
    assert!(!app.canvas().cursors.contains_key(&77));
    assert!(app.canvas().active_users().contains(&9));
    disconnect(&mut app, 78);
    assert!(!app.canvas().active_users().contains(&9));
}

#[test]
fn snapshot_then_deltas() {
    let mut app = AppState::new(9);
    paint(&mut app, &PaintRequest { x: 0, y: 0, color: [1, 1, 1, 1] });
    let (message, seen) = snapshot(app.canvas());
    assert!(matches!(message, WsMessage::Snapshot(_)));
    assert_eq!(seen.version, app.canvas().version());
    assert!(next_delta(app.canvas(), &seen).is_none());
    paint(&mut app, &PaintRequest { x: 5, y: 6, color: [2, 2, 2, 2] });
    let (message, seen) = next_delta(app.canvas(), &seen).unwrap();
    match message {
        WsMessage::Delta(view) => {
            assert_eq!(view.pixels, vec![("5,6".to_string(), [2, 2, 2, 2])]);
            assert_eq!(view.paint_total, Some(2));
        }
        WsMessage::Snapshot(_) => panic!("expected a delta"),
    }
    assert!(next_delta(app.canvas(), &seen).is_none());
}

#[test]
fn removed_color_disappears_from_the_clients_palette() {
    let mut app = AppState::new(9);
    let req = PaletteRequest { color: [1, 2, 3, 4] };
    add_palette(&mut app, &req);
    let (_, seen) = snapshot(app.canvas());
    remove_palette(&mut app, &req);
    let (message, seen) = next_delta(app.canvas(), &seen).unwrap();
    match message {
        WsMessage::Delta(view) => assert_eq!(view.palette, Some(vec![])),
        WsMessage::Snapshot(_) => panic!("expected a delta"),
    }
    paint(&mut app, &PaintRequest { x: 0, y: 0, color: [1, 1, 1, 1] });
    match next_delta(app.canvas(), &seen).unwrap().0 {
        WsMessage::Delta(view) => assert_eq!(view.palette, None),
        WsMessage::Snapshot(_) => panic!("expected a delta"),
    }
}

#[test]
fn session_ids() {
    let text = "550e8400-e29b-41d4-a716-446655440000".to_string();
    assert_eq!(session_user(&Some(text), 7), 0x550e8400_e29b_41d4_a716_446655440000);
    assert_eq!(session_user(&Some("junk".to_string()), 7), 7);
    assert_eq!(session_user(&None, 7), 7);
    assert_eq!(session_user_of(Some(3), 7), 3);
    assert_eq!(session_user_of(None, 7), 7);
}

#[test]
fn asset_paths() {
    assert_eq!(asset_path("/"), "index.html");
    assert_eq!(asset_path(""), "index.html");
    assert_eq!(asset_path("//app.js"), "app.js");
    assert_eq!(asset_path("/a/b.css"), "a/b.css");
    assert_eq!(choose_asset(true, true), Asset::AtPath);
    assert_eq!(choose_asset(false, true), Asset::Index);
    assert_eq!(choose_asset(false, false), Asset::Missing);
}

#[test]
fn peer_lists_are_split() {
    assert_eq!(split_peers("a:1,b:2"), vec!["a:1", "b:2"]);
    assert_eq!(split_peers(",a:1,,"), vec!["a:1"]);
    assert!(split_peers("").is_empty());
}

#[test]
fn room_for_mutations() {
    let mut app = AppState::new(1);
    assert!(has_room(&app, 2));
    app.mutate(|doc, _| {
        doc.clock.clock.insert(4, u64::MAX - 1);
    });
    assert!(has_room(&app, 1));
    assert!(!has_room(&app, 2));
    assert!(can_paint(&app));
    app.mutate(|doc, id| {
        doc.paint_counts.counts.insert(id, u64::MAX);
    });
    assert!(has_room(&app, 1));
    assert!(!can_paint(&app));
}

#[test]
fn full_clock_refuses_only_what_ticks() {
    let mut app = AppState::new(1);
    connect(&mut app);
    app.mutate(|doc, _| {
        doc.clock.clock.insert(4, u64::MAX);
    });
    // A further connection and a request that names no user do not tick.
    connect(&mut app);
    assert_eq!(app.ws_session_count, 2);
    let junk = CursorRequest { user_id: "not-a-uuid".to_string(), x: 0, y: 0 };
    assert_eq!(cursor(&mut app, &junk), Status::BadRequest);
    assert_eq!(try_cursor(&mut app, &junk), Some(Status::BadRequest));
    assert_eq!(move_cursor(&mut app, None, 0, 0), Status::BadRequest);
    let user = Uuid::from_u128(5);
    let req = CursorRequest { user_id: user.to_string(), x: 3, y: 4 };
    assert_eq!(try_cursor(&mut app, &req), None);
    assert!(app.canvas().cursors.is_empty());

    app.mutate(|doc, _| {
        doc.clock.clock.insert(4, u64::MAX - 2);
    });
    assert_eq!(try_cursor(&mut app, &req), Some(Status::NoContent));
    assert_eq!(app.canvas().cursors.get(&5).map(|r| r.value()), Some((3, 4)));
    // One tick is left, which is enough where other connections stay.
    disconnect(&mut app, 5);
    assert!(app.canvas().cursors.is_empty());
    assert!(app.canvas().active_users().contains(&1));
}

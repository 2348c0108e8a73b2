//! Identifiers and coordinates as text.
use crdt_canvas::api::node_info;
use crdt_canvas::state::AppState;
use crdt_canvas::text::coord_key;

#[test]
fn identifiers_are_hyphenated() {
    let info = node_info(&AppState::new(0x00112233_4455_6677_8899_aabbccddeeff));
    assert_eq!(info.id, "00112233-4455-6677-8899-aabbccddeeff");
    let info = node_info(&AppState::new(u128::MAX));
    assert_eq!(info.id, "ffffffff-ffff-ffff-ffff-ffffffffffff");
}

#[test]
fn texts_of_identifiers_sort_like_them() {
    let ids = [0u128, 9, 10, 0xff, 1 << 64, u128::MAX - 1, u128::MAX];
    let texts: Vec<String> = ids.iter().map(|id| node_info(&AppState::new(*id)).id).collect();
    for i in 1..texts.len() {
        assert!(texts[i - 1] < texts[i]);
    }
}

#[test]
fn coordinates_are_decimal() {
    assert_eq!(coord_key(0, 9), "0,9");
    assert_eq!(coord_key(10, 99), "10,99");
    assert_eq!(coord_key(100, 255), "100,255");
    for x in 0..=255u8 {
        assert_eq!(coord_key(x, 255 - x), format!("{},{}", x, 255 - x));
    }
}

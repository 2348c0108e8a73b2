//! What clients see of the canvas: a full view, and views of what changed.
use super::document::{Canvas, CanvasDelta, CanvasDocument, PixelCoord, Rgba};
use crate::clocks::VectorClock;
use crate::collections::{is_subset, map_entries, set_elements};
use crate::registers::LWWRegister;
use crate::sets::orset::{ORSet, TaggedDelta};
use crate::text::{coord_key, uuid_text};
use crate::traits::{Crdt, DeltaCrdt};
use crate::NodeId;
use std::collections::{BTreeMap, BTreeSet};
use vstd::prelude::*;

verus! {

/// Client-facing snapshot of the full canvas. Strips CRDT metadata (timestamps, node ids, vector
/// clock).
pub struct CanvasView {
    /// All painted pixels keyed as `"x,y"` strings; unpainted pixels are absent (default white).
    pub pixels: Vec<(String, [u8; 4])>,
    /// Currently connected peers, sorted for stable display.
    pub active_peers: Vec<String>,
    /// Shared palette colors in sorted order.
    pub palette: Vec<[u8; 4]>,
    /// Cumulative paint operations across all peers.
    pub paint_total: u64,
    /// Per-peer pixel ownership counts, sorted descending.
    pub leaderboard: Vec<LeaderboardEntry>,
    /// Latest cursor position per peer.
    pub cursors: Vec<(String, [u8; 2])>,
}

/// One row in the pixel-ownership leaderboard.
pub struct LeaderboardEntry {
    /// The peer that owns these pixels (last-write winner).
    pub peer_id: String,
    /// Number of canvas pixels currently owned by this peer.
    pub pixels: u64,
}

/// Sparse client-facing view of a [`CanvasDelta`].
///
/// `pixels` lists only the coordinates whose colour changed since the receiver's last update. A
/// client keeps what it had of an `Option` field that is `None`: no colour was added or removed,
/// no pixel was painted, no cursor was moved. A cursor that was dropped is not told of: `cursors`
/// holds positions to patch in, and is `None` too where cursors were only dropped, so a client
/// shows a dropped cursor until its next snapshot.
pub struct CanvasDeltaView {
    pub pixels: Vec<(String, [u8; 4])>,
    pub active_peers: Option<Vec<String>>,
    pub palette: Option<Vec<[u8; 4]>>,
    pub paint_total: Option<u64>,
    pub leaderboard: Option<Vec<LeaderboardEntry>>,
    pub cursors: Option<Vec<(String, [u8; 2])>>,
}

/// The four channels of a color.
pub open spec fn channels(color: Rgba) -> Seq<u8> {
    seq![color.0, color.1, color.2, color.3]
}

/// The values that registers hold.
pub open spec fn values_of<K, V>(registers: Map<K, LWWRegister<V>>) -> Map<K, V> {
    registers.map_values(|register: LWWRegister<V>| register.value)
}

/// The value that the last row of each key holds.
pub open spec fn last_values<K, V>(rows: Seq<(K, LWWRegister<V>)>) -> Map<K, V>
    decreases rows.len(),
{
    if rows.len() == 0 {
        Map::empty()
    } else {
        last_values(rows.drop_last()).insert(rows.last().0, rows.last().1.value)
    }
}

/// `rows` shows each pixel of `colors` once, with its color.
pub open spec fn shows_pixels(rows: Seq<(String, [u8; 4])>, colors: Map<PixelCoord, Rgba>) -> bool {
    exists|order: Seq<(PixelCoord, Rgba)>|
        {
            &&& #[trigger] crate::collections::lists_map(order, colors)
            &&& rows.len() == order.len()
            &&& forall|i: int|
                #![trigger rows[i]]
                0 <= i < rows.len() ==> {
                    &&& rows[i].0@ == crate::text::coord_text(order[i].0.0, order[i].0.1)
                    &&& rows[i].1@ == channels(order[i].1)
                }
        }
}

/// `rows` shows each cursor of `places` once, with its place.
pub open spec fn shows_cursors(
    rows: Seq<(String, [u8; 2])>,
    places: Map<NodeId, PixelCoord>,
) -> bool {
    exists|order: Seq<(NodeId, PixelCoord)>|
        {
            &&& #[trigger] crate::collections::lists_map(order, places)
            &&& rows.len() == order.len()
            &&& forall|i: int|
                #![trigger rows[i]]
                0 <= i < rows.len() ==> {
                    &&& rows[i].0@ == crate::text::hyphenated(order[i].0)
                    &&& rows[i].1@ == seq![order[i].1.0, order[i].1.1]
                }
        }
}

/// `names` shows each peer once, in increasing order.
pub open spec fn shows_peers(names: Seq<String>, peers: Set<NodeId>) -> bool {
    exists|order: Seq<NodeId>|
        {
            &&& #[trigger] crate::collections::lists_set(order, peers)
            &&& names.len() == order.len()
            &&& forall|i: int|
                #![trigger names[i]]
                0 <= i < names.len() ==> names[i]@ == crate::text::hyphenated(order[i])
            &&& forall|i: int, j: int|
                #![trigger order[i], order[j]]
                0 <= i < j < order.len() ==> order[i] < order[j]
        }
}

/// `rows` shows each color once, in increasing order.
pub open spec fn shows_palette(rows: Seq<[u8; 4]>, colors: Set<Rgba>) -> bool {
    exists|order: Seq<Rgba>|
        {
            &&& #[trigger] crate::collections::lists_set(order, colors)
            &&& rows.len() == order.len()
            &&& forall|i: int|
                #![trigger rows[i]]
                0 <= i < rows.len() ==> rows[i]@ == channels(order[i])
            &&& forall|i: int, j: int|
                #![trigger order[i], order[j]]
                0 <= i < j < order.len() ==> super::document::color_before(order[i], order[j])
        }
}

/// `rows` shows the leaderboard of the pixels.
pub open spec fn shows_leaderboard(
    rows: Seq<LeaderboardEntry>,
    pixels: Map<PixelCoord, LWWRegister<Rgba>>,
) -> bool {
    exists|board: Seq<(NodeId, u64)>|
        {
            &&& #[trigger] super::leaderboard::is_leaderboard(pixels, board)
            &&& rows.len() == board.len()
            &&& forall|i: int|
                #![trigger rows[i]]
                0 <= i < rows.len() ==> {
                    &&& rows[i].peer_id@ == crate::text::hyphenated(board[i].0)
                    &&& rows[i].pixels == board[i].1
                }
        }
}

/// The view shows the canvas.
pub open spec fn shows(canvas: Canvas, view: CanvasView) -> bool {
    &&& shows_pixels(view.pixels@, values_of(canvas.pixels))
    &&& shows_peers(view.active_peers@, canvas.users.elements())
    &&& shows_palette(view.palette@, canvas.palette.elements())
    &&& view.paint_total == crate::counters::g_counter::total(canvas.paint_counts)
    &&& shows_leaderboard(view.leaderboard@, canvas.pixels)
    &&& shows_cursors(view.cursors@, values_of(canvas.cursors))
}

/// The view shows a delta, with these changes of the palette, pixels and cursors, of the canvas.
pub open spec fn projects(
    palette: TaggedDelta<Rgba>,
    pixels: Seq<(PixelCoord, LWWRegister<Rgba>)>,
    cursors: Seq<(NodeId, LWWRegister<PixelCoord>)>,
    canvas: Canvas,
    view: CanvasDeltaView,
) -> bool {
    &&& shows_pixels(view.pixels@, last_values(pixels))
    &&& view.active_peers is Some
    &&& shows_peers(view.active_peers->0@, canvas.users.elements())
    &&& view.palette is Some <==> !ORSet::<Rgba>::vacuous(palette)
    &&& view.palette is Some ==> shows_palette(view.palette->0@, canvas.palette.elements())
    &&& view.paint_total is Some
    &&& view.paint_total->0 == crate::counters::g_counter::total(canvas.paint_counts)
    &&& view.leaderboard is Some <==> pixels.len() > 0
    &&& view.leaderboard is Some ==> shows_leaderboard(view.leaderboard->0@, canvas.pixels)
    &&& view.cursors is Some <==> cursors.len() > 0
    &&& view.cursors is Some ==> shows_cursors(view.cursors->0@, last_values(cursors))
}

/// The view shows what changed on the canvas since a version, at which the palette was `colors`:
/// the pixels and cursors that were written since, the palette if it is another one, the
/// leaderboard if pixels changed, and in any case the peers and the number of paints.
pub open spec fn shows_change(
    canvas: Canvas,
    since: Map<NodeId, u64>,
    colors: Set<Rgba>,
    view: CanvasDeltaView,
) -> bool {
    let change = canvas.change_since(since);
    &&& shows_pixels(view.pixels@, values_of(change.pixels))
    &&& view.active_peers is Some
    &&& shows_peers(view.active_peers->0@, canvas.users.elements())
    &&& view.palette is Some <==> canvas.palette.elements() != colors
    &&& view.palette is Some ==> shows_palette(view.palette->0@, canvas.palette.elements())
    &&& view.paint_total is Some
    &&& view.paint_total->0 == crate::counters::g_counter::total(canvas.paint_counts)
    &&& view.leaderboard is Some <==> !change.pixels.is_empty()
    &&& view.leaderboard is Some ==> shows_leaderboard(view.leaderboard->0@, canvas.pixels)
    &&& view.cursors is Some <==> !change.cursors.is_empty()
    &&& view.cursors is Some ==> shows_cursors(view.cursors->0@, values_of(change.cursors))
}

/// The names of the peers that are shown sort as text in the order in which they are shown.
pub proof fn shown_peers_sort_as_text(names: Seq<String>, peers: Set<NodeId>)
    requires
        shows_peers(names, peers),
    ensures
        forall|i: int, j: int|
            #![trigger names[i], names[j]]
            0 <= i < j < names.len() ==> crate::text::sorts_before(names[i]@, names[j]@),
{
    let order = choose|order: Seq<NodeId>|
        {
            &&& #[trigger] crate::collections::lists_set(order, peers)
            &&& names.len() == order.len()
            &&& forall|i: int|
                #![trigger names[i]]
                0 <= i < names.len() ==> names[i]@ == crate::text::hyphenated(order[i])
            &&& forall|i: int, j: int|
                #![trigger order[i], order[j]]
                0 <= i < j < order.len() ==> order[i] < order[j]
        };
    assert forall|i: int, j: int|
        #![trigger names[i], names[j]]
        0 <= i < j < names.len() implies crate::text::sorts_before(names[i]@, names[j]@) by {
        crate::text::text_keeps_order(order[i], order[j]);
    }
}

/// No coordinate is shown twice.
pub proof fn shown_pixels_have_distinct_keys(
    rows: Seq<(String, [u8; 4])>,
    colors: Map<PixelCoord, Rgba>,
)
    requires
        shows_pixels(rows, colors),
    ensures
        forall|i: int, j: int|
            #![trigger rows[i], rows[j]]
            0 <= i < j < rows.len() ==> rows[i].0@ != rows[j].0@,
{
    let order = choose|order: Seq<(PixelCoord, Rgba)>|
        {
            &&& #[trigger] crate::collections::lists_map(order, colors)
            &&& rows.len() == order.len()
            &&& forall|i: int|
                #![trigger rows[i]]
                0 <= i < rows.len() ==> {
                    &&& rows[i].0@ == crate::text::coord_text(order[i].0.0, order[i].0.1)
                    &&& rows[i].1@ == channels(order[i].1)
                }
        };
    assert forall|i: int, j: int|
        #![trigger rows[i], rows[j]]
        0 <= i < j < rows.len() implies rows[i].0@ != rows[j].0@ by {
        if rows[i].0@ == rows[j].0@ {
            crate::text::text_tells_coords_apart(
                order[i].0.0,
                order[i].0.1,
                order[j].0.0,
                order[j].0.1,
            );
            assert(order[i].0 != order[j].0);
        }
    }
}

/// Rows with distinct keys show the values of the registers that they are.
pub proof fn distinct_rows_show_their_values<K, V: Clone + PartialEq>(
    rows: Seq<(K, LWWRegister<V>)>,
)
    requires
        super::document::keys_differ(rows),
    ensures
        last_values(rows) == values_of(crate::maps::lww_map::collapse(rows)),
    decreases rows.len(),
{
    if rows.len() > 0 {
        let rest = rows.drop_last();
        let last = rows.last();
        assert forall|i: int, j: int|
            #![trigger rest[i], rest[j]]
            0 <= i < j < rest.len() implies rest[i].0 != rest[j].0 by {
            assert(rest[i] == rows[i] && rest[j] == rows[j]);
        }
        distinct_rows_show_their_values(rest);
        crate::maps::lww_map::collapse_lists(rest);
        crate::maps::lww_map::collapse_lists(rows);
        let made = crate::maps::lww_map::collapse(rows);
        assert(!crate::maps::lww_map::collapse(rest).contains_key(last.0)) by {
            if crate::maps::lww_map::collapse(rest).contains_key(last.0) {
                let i = choose|i: int| 0 <= i < rest.len() && (#[trigger] rest[i]).0 == last.0;
                assert(rows[i].0 == rows[rows.len() - 1].0);
            }
        }
        assert(last_values(rows) =~= values_of(made));
    } else {
        assert(last_values(rows) =~= values_of(crate::maps::lww_map::collapse(rows)));
    }
}

/// Patching works: a client that shows the pixels of an earlier state, and lays over them those
/// that were written since the version of that state, shows the pixels of the later state. It
/// does where the later state includes the earlier one and what the version covers was in it.
pub proof fn patch_brings_pixels_up_to_date(
    earlier: Map<PixelCoord, LWWRegister<Rgba>>,
    later: Map<PixelCoord, LWWRegister<Rgba>>,
    since: Map<NodeId, u64>,
)
    requires
        crate::maps::lww_map::registers_below(earlier, later),
        crate::maps::lww_map::registers_agree(earlier, later),
        super::document::registers_bridged(later, since, earlier),
    ensures
        values_of(earlier).union_prefer_right(
            values_of(super::document::written_since(later, since)),
        ) == values_of(later),
{
    let patched = values_of(earlier).union_prefer_right(
        values_of(super::document::written_since(later, since)),
    );
    assert forall|coord: PixelCoord| patched.contains_key(coord) == later.contains_key(coord) by {
        if earlier.contains_key(coord) {}
        if later.contains_key(coord) {}
    }
    assert forall|coord: PixelCoord| patched.contains_key(coord) implies
        patched[coord] == values_of(
        later,
    )[coord] by {
        assert(later.contains_key(coord));
        if earlier.contains_key(coord) {}
    }
    assert(patched =~= values_of(later));
}

/// The values that the registers hold.
fn register_values<K: Ord + Copy, V: Copy>(registers: &BTreeMap<K, LWWRegister<V>>) -> (values:
    BTreeMap<K, V>)
    ensures
        crate::collections::lawful_key::<K>() ==> values@ == values_of(registers@),
{
    let rows = map_entries(registers);
    let ghost listed = rows@.unref();
    let mut values: BTreeMap<K, V> = BTreeMap::new();
    for i in 0..rows.len()
        invariant
            listed == rows@.unref(),
            crate::collections::lawful_key::<K>() ==> {
                &&& crate::collections::lists_map(listed, registers@)
                &&& forall|key: K| #[trigger]
                    values@.contains_key(key) <==> exists|j: int|
                        0 <= j < i && (#[trigger] listed[j]).0 == key
                &&& forall|j: int|
                    #![trigger listed[j]]
                    0 <= j < i ==> values@[listed[j].0] == listed[j].1.value
            },
    {
        assert(listed[i as int] == (*rows@[i as int].0, *rows@[i as int].1));
        values.insert(*rows[i].0, rows[i].1.value);
    }
    assert(crate::collections::lawful_key::<K>() ==> values@ =~= values_of(registers@));
    values
}

/// The value that the last row of each key holds.
fn row_values<K: Ord + Copy, V: Copy>(rows: &Vec<(K, LWWRegister<V>)>) -> (values: BTreeMap<K, V>)
    ensures
        crate::collections::lawful_key::<K>() ==> values@ == last_values(rows@),
{
    let mut values: BTreeMap<K, V> = BTreeMap::new();
    assert(rows@.take(0) =~= Seq::empty());
    for i in 0..rows.len()
        invariant
            crate::collections::lawful_key::<K>() ==> values@ == last_values(
                rows@.take(i as int),
            ),
    {
        values.insert(rows[i].0, rows[i].1.value);
        assert(rows@.take(i + 1).drop_last() =~= rows@.take(i as int));
        assert(rows@.take(i + 1).last() == rows@[i as int]);
    }
    assert(rows@.take(rows@.len() as int) =~= rows@);
    values
}

/// The pixels as clients see them.
fn pixel_rows(colors: &BTreeMap<PixelCoord, Rgba>) -> (rows: Vec<(String, [u8; 4])>)
    ensures
        shows_pixels(rows@, colors@),
{
    let entries = map_entries(colors);
    let ghost order = entries@.unref();
    let mut rows: Vec<(String, [u8; 4])> = Vec::new();
    for i in 0..entries.len()
        invariant
            order == entries@.unref(),
            rows@.len() == i,
            forall|j: int|
                #![trigger rows@[j]]
                0 <= j < i ==> {
                    &&& rows@[j].0@ == crate::text::coord_text(order[j].0.0, order[j].0.1)
                    &&& rows@[j].1@ == channels(order[j].1)
                },
    {
        let coord: PixelCoord = *entries[i].0;
        let color: Rgba = *entries[i].1;
        let shown: [u8; 4] = [color.0, color.1, color.2, color.3];
        assert(shown@ =~= channels(color));
        rows.push((coord_key(coord.0, coord.1), shown));
    }
    assert(crate::collections::lists_map(order, colors@));
    rows
}

/// The cursors as clients see them.
fn cursor_rows(places: &BTreeMap<NodeId, PixelCoord>) -> (rows: Vec<(String, [u8; 2])>)
    ensures
        shows_cursors(rows@, places@),
{
    let entries = map_entries(places);
    let ghost order = entries@.unref();
    let mut rows: Vec<(String, [u8; 2])> = Vec::new();
    for i in 0..entries.len()
        invariant
            order == entries@.unref(),
            rows@.len() == i,
            forall|j: int|
                #![trigger rows@[j]]
                0 <= j < i ==> {
                    &&& rows@[j].0@ == crate::text::hyphenated(order[j].0)
                    &&& rows@[j].1@ == seq![order[j].1.0, order[j].1.1]
                },
    {
        let place: PixelCoord = *entries[i].1;
        let shown: [u8; 2] = [place.0, place.1];
        assert(shown@ =~= seq![place.0, place.1]);
        rows.push((uuid_text(*entries[i].0), shown));
    }
    assert(crate::collections::lists_map(order, places@));
    rows
}

/// The peers as clients see them.
fn peer_names(peers: &BTreeSet<NodeId>) -> (names: Vec<String>)
    ensures
        shows_peers(names@, peers@),
{
    let ids = set_elements(peers);
    let ghost order = ids@.unref();
    let mut names: Vec<String> = Vec::new();
    for i in 0..ids.len()
        invariant
            order == ids@.unref(),
            names@.len() == i,
            forall|j: int|
                #![trigger names@[j]]
                0 <= j < i ==> names@[j]@ == crate::text::hyphenated(order[j]),
    {
        names.push(uuid_text(*ids[i]));
    }
    proof {
        crate::collections::increasing_ids(order);
        assert(crate::collections::lists_set(order, peers@));
    }
    names
}

/// The palette as clients see it.
pub fn palette_rows(doc: &CanvasDocument) -> (rows: Vec<[u8; 4]>)
    ensures
        shows_palette(rows@, doc@.palette.elements()),
{
    let colors = doc.palette_colors();
    let mut rows: Vec<[u8; 4]> = Vec::new();
    for i in 0..colors.len()
        invariant
            rows@.len() == i,
            forall|j: int| #![trigger rows@[j]] 0 <= j < i ==> rows@[j]@ == channels(colors@[j]),
    {
        let color: Rgba = colors[i];
        let shown: [u8; 4] = [color.0, color.1, color.2, color.3];
        assert(shown@ =~= channels(color));
        rows.push(shown);
    }
    assert(crate::collections::lists_set(colors@, doc@.palette.elements()));
    rows
}

/// The leaderboard as clients see it.
pub fn leaderboard_entries(doc: &CanvasDocument) -> (rows: Vec<LeaderboardEntry>)
    ensures
        shows_leaderboard(rows@, doc@.pixels),
{
    let board = doc.ownership_leaderboard();
    let mut rows: Vec<LeaderboardEntry> = Vec::new();
    for i in 0..board.len()
        invariant
            rows@.len() == i,
            forall|j: int|
                #![trigger rows@[j]]
                0 <= j < i ==> {
                    &&& rows@[j].peer_id@ == crate::text::hyphenated(board@[j].0)
                    &&& rows@[j].pixels == board@[j].1
                },
    {
        rows.push(LeaderboardEntry { peer_id: uuid_text(board[i].0), pixels: board[i].1 });
    }
    assert(super::leaderboard::is_leaderboard(doc@.pixels, board@));
    rows
}

impl CanvasView {
    /// Project a full [`CanvasDocument`] into a snapshot, dropping all CRDT internals.
    pub fn from(doc: &CanvasDocument) -> (view: CanvasView)
        requires
            crate::counters::GCounter::readable(doc@.paint_counts),
        ensures
            shows(doc@, view),
    {
        CanvasView {
            pixels: pixel_rows(&register_values(&doc.pixels)),
            active_peers: peer_names(&doc.active_users()),
            palette: palette_rows(doc),
            paint_total: doc.paint_counts.value(),
            leaderboard: leaderboard_entries(doc),
            cursors: cursor_rows(&register_values(&doc.cursors)),
        }
    }
}

impl CanvasDeltaView {
    /// Project a CRDT-level `CanvasDelta` against the new authoritative document state,
    /// recomputing each derived view only when its underlying CRDT actually changed.
    ///
    /// The active peers and the paint total are always included. The palette is included when the
    /// delta adds to it or removes from it. The leaderboard is derived from per-pixel ownership,
    /// so it is included when pixels changed.
    pub fn project(delta: &CanvasDelta, doc: &CanvasDocument) -> (view: CanvasDeltaView)
        requires
            crate::counters::GCounter::readable(doc@.paint_counts),
        ensures
            projects(delta@.palette, delta.pixels@, delta.cursors@, doc@, view),
    {
        let palette = if ORSet::<Rgba>::is_empty_delta(&delta.palette) {
            None
        } else {
            Some(palette_rows(doc))
        };
        let leaderboard = if delta.pixels.is_empty() {
            None
        } else {
            Some(leaderboard_entries(doc))
        };
        let cursors = if delta.cursors.is_empty() {
            None
        } else {
            Some(cursor_rows(&row_values(&delta.cursors)))
        };
        CanvasDeltaView {
            pixels: pixel_rows(&row_values(&delta.pixels)),
            active_peers: Some(peer_names(&doc.active_users())),
            palette,
            paint_total: Some(doc.paint_counts.value()),
            leaderboard,
            cursors,
        }
    }
}

/// What a client shows: the version of the canvas, and the palette.
pub struct Session {
    pub version: VectorClock,
    pub palette: BTreeSet<Rgba>,
}

impl Session {
    /// The client shows the canvas as it is.
    pub open spec fn is_at(self, canvas: Canvas) -> bool {
        self.version@ == canvas.clock && self.palette@ == canvas.palette.elements()
    }

    /// A client that shows the document as it is.
    pub fn at(doc: &CanvasDocument) -> (session: Session)
        ensures
            session.is_at(doc@),
    {
        Session { version: doc.version(), palette: doc.palette.value() }
    }

    /// What changed on the document since the client was last updated, or `None` where nothing
    /// did. The palette is compared with the one that the client shows: a delta also tells of a
    /// color that was added once more, or removed and added again.
    pub fn change(&self, doc: &CanvasDocument) -> (view: Option<CanvasDeltaView>)
        requires
            crate::counters::GCounter::readable(doc@.paint_counts),
        ensures
            view is None <==> CanvasDocument::vacuous(doc@.change_since(self.version@)),
            view matches Some(view) ==> shows_change(
                doc@,
                self.version@,
                self.palette@,
                view,
            ),
    {
        let delta = doc.delta_since(&self.version);
        if CanvasDocument::is_empty_delta(&delta) {
            return None;
        }
        let mut view = CanvasDeltaView::project(&delta, doc);
        proof {
            distinct_rows_show_their_values(delta.pixels@);
            distinct_rows_show_their_values(delta.cursors@);
            super::document::collapse_is_empty(delta.pixels@);
            super::document::collapse_is_empty(delta.cursors@);
        }
        let colors = doc.palette.value();
        let same = is_subset(&colors, &self.palette) && is_subset(&self.palette, &colors);
        assert(same == (colors@ =~= self.palette@));
        view.palette = if same {
            None
        } else {
            Some(palette_rows(doc))
        };
        Some(view)
    }
}

} // verus!

//! What clients are shown of a canvas, row by row.
use super::document::{Canvas, PixelCoord, Rgba};
use super::leaderboard::{is_leaderboard, owned, ranks_before};
use super::view::{
    last_values, projects, shows, shows_change, shows_cursors, shows_leaderboard, shows_palette,
    shows_peers, shows_pixels, values_of, CanvasDeltaView, CanvasView, LeaderboardEntry,
};
use crate::registers::LWWRegister;
use crate::sets::orset::TaggedDelta;
use crate::text::{coord_text, hyphenated};
use crate::NodeId;
use vstd::prelude::*;

verus! {

/// The row shows the color at the coordinate: its four channels, red, green, blue and alpha.
pub open spec fn row_shows(row: (String, [u8; 4]), coord: PixelCoord, color: Rgba) -> bool {
    &&& row.0@ == coord_text(coord.0, coord.1)
    &&& row.1@.len() == 4
    &&& row.1@[0] == color.0
    &&& row.1@[1] == color.1
    &&& row.1@[2] == color.2
    &&& row.1@[3] == color.3
}

/// Every pixel is shown by a row, with its channels.
pub proof fn pixel_is_shown(
    rows: Seq<(String, [u8; 4])>,
    colors: Map<PixelCoord, Rgba>,
    coord: PixelCoord,
) -> (at: int)
    requires
        shows_pixels(rows, colors),
        colors.contains_key(coord),
    ensures
        0 <= at < rows.len(),
        row_shows(rows[at], coord, colors[coord]),
{
    let order = choose|order: Seq<(PixelCoord, Rgba)>|
        {
            &&& #[trigger] crate::collections::lists_map(order, colors)
            &&& rows.len() == order.len()
            &&& forall|i: int|
                #![trigger rows[i]]
                0 <= i < rows.len() ==> {
                    &&& rows[i].0@ == coord_text(order[i].0.0, order[i].0.1)
                    &&& rows[i].1@ == super::view::channels(order[i].1)
                }
        };
    let at = choose|i: int| 0 <= i < order.len() && (#[trigger] order[i]).0 == coord;
    assert(rows[at].1@ == super::view::channels(colors[coord]));
    at
}

/// Every row shows a pixel, and no pixel is shown twice.
pub proof fn row_shows_a_pixel(
    rows: Seq<(String, [u8; 4])>,
    colors: Map<PixelCoord, Rgba>,
    at: int,
) -> (coord: PixelCoord)
    requires
        shows_pixels(rows, colors),
        0 <= at < rows.len(),
    ensures
        colors.contains_key(coord),
        row_shows(rows[at], coord, colors[coord]),
        rows.len() == colors.dom().len(),
        forall|other: int|
            0 <= other < rows.len() && other != at ==> (#[trigger] rows[other]).0@ != rows[at].0@,
{
    super::view::shown_pixels_have_distinct_keys(rows, colors);
    let order = choose|order: Seq<(PixelCoord, Rgba)>|
        {
            &&& #[trigger] crate::collections::lists_map(order, colors)
            &&& rows.len() == order.len()
            &&& forall|i: int|
                #![trigger rows[i]]
                0 <= i < rows.len() ==> {
                    &&& rows[i].0@ == coord_text(order[i].0.0, order[i].0.1)
                    &&& rows[i].1@ == super::view::channels(order[i].1)
                }
        };
    assert(order[at] == order[at]);
    assert(rows[at].1@ == super::view::channels(order[at].1));
    order[at].0
}

/// The row shows the cursor of the user at the place.
pub open spec fn cursor_shows(row: (String, [u8; 2]), user: NodeId, place: PixelCoord) -> bool {
    &&& row.0@ == hyphenated(user)
    &&& row.1@.len() == 2
    &&& row.1@[0] == place.0
    &&& row.1@[1] == place.1
}

/// Every cursor is shown by a row, at its place.
pub proof fn cursor_is_shown(
    rows: Seq<(String, [u8; 2])>,
    places: Map<NodeId, PixelCoord>,
    user: NodeId,
) -> (at: int)
    requires
        shows_cursors(rows, places),
        places.contains_key(user),
    ensures
        0 <= at < rows.len(),
        cursor_shows(rows[at], user, places[user]),
{
    let order = choose|order: Seq<(NodeId, PixelCoord)>|
        {
            &&& #[trigger] crate::collections::lists_map(order, places)
            &&& rows.len() == order.len()
            &&& forall|i: int|
                #![trigger rows[i]]
                0 <= i < rows.len() ==> {
                    &&& rows[i].0@ == hyphenated(order[i].0)
                    &&& rows[i].1@ == seq![order[i].1.0, order[i].1.1]
                }
        };
    let at = choose|i: int| 0 <= i < order.len() && (#[trigger] order[i]).0 == user;
    assert(rows[at].1@ == seq![places[user].0, places[user].1]);
    at
}

/// Every row shows a cursor, and no cursor is shown twice.
pub proof fn row_shows_a_cursor(
    rows: Seq<(String, [u8; 2])>,
    places: Map<NodeId, PixelCoord>,
    at: int,
) -> (user: NodeId)
    requires
        shows_cursors(rows, places),
        0 <= at < rows.len(),
    ensures
        places.contains_key(user),
        cursor_shows(rows[at], user, places[user]),
        rows.len() == places.dom().len(),
{
    let order = choose|order: Seq<(NodeId, PixelCoord)>|
        {
            &&& #[trigger] crate::collections::lists_map(order, places)
            &&& rows.len() == order.len()
            &&& forall|i: int|
                #![trigger rows[i]]
                0 <= i < rows.len() ==> {
                    &&& rows[i].0@ == hyphenated(order[i].0)
                    &&& rows[i].1@ == seq![order[i].1.0, order[i].1.1]
                }
        };
    assert(order[at] == order[at]);
    assert(rows[at].1@ == seq![order[at].1.0, order[at].1.1]);
    order[at].0
}

/// Every active user is shown, by the text of the identifier.
pub proof fn peer_is_shown(names: Seq<String>, peers: Set<NodeId>, peer: NodeId) -> (at: int)
    requires
        shows_peers(names, peers),
        peers.contains(peer),
    ensures
        0 <= at < names.len(),
        names[at]@ == hyphenated(peer),
{
    let order = choose|order: Seq<NodeId>|
        {
            &&& #[trigger] crate::collections::lists_set(order, peers)
            &&& names.len() == order.len()
            &&& forall|i: int|
                #![trigger names[i]]
                0 <= i < names.len() ==> names[i]@ == hyphenated(order[i])
        };
    let at = choose|i: int| 0 <= i < order.len() && #[trigger] order[i] == peer;
    assert(names[at]@ == hyphenated(order[at]));
    at
}

/// Every name that is shown is that of an active user; there are as many names as active users, and
/// they are in the order of the texts.
pub proof fn name_is_of_a_peer(names: Seq<String>, peers: Set<NodeId>, at: int) -> (peer: NodeId)
    requires
        shows_peers(names, peers),
        0 <= at < names.len(),
    ensures
        peers.contains(peer),
        names[at]@ == hyphenated(peer),
        names.len() == peers.len(),
        forall|other: int|
            at < other < names.len() ==> crate::text::sorts_before(
                names[at]@,
                (#[trigger] names[other])@,
            ),
{
    super::view::shown_peers_sort_as_text(names, peers);
    let order = choose|order: Seq<NodeId>|
        {
            &&& #[trigger] crate::collections::lists_set(order, peers)
            &&& names.len() == order.len()
            &&& forall|i: int|
                #![trigger names[i]]
                0 <= i < names.len() ==> names[i]@ == hyphenated(order[i])
        };
    assert(names[at]@ == hyphenated(order[at]));
    order[at]
}

/// The row has the channels of the color.
pub open spec fn color_shows(row: [u8; 4], color: Rgba) -> bool {
    &&& row@.len() == 4
    &&& row@[0] == color.0
    &&& row@[1] == color.1
    &&& row@[2] == color.2
    &&& row@[3] == color.3
}

/// One row stands before another: it is lower in the first channel in which they differ.
pub open spec fn stands_before(a: [u8; 4], b: [u8; 4]) -> bool {
    exists|at: int|
        0 <= at < 4 && #[trigger] a@[at] < b@[at] && forall|k: int|
            0 <= k < at ==> #[trigger] a@[k] == b@[k]
}

/// Every color of the palette is shown by a row, with its channels.
pub proof fn color_is_shown(rows: Seq<[u8; 4]>, colors: Set<Rgba>, color: Rgba) -> (at: int)
    requires
        shows_palette(rows, colors),
        colors.contains(color),
    ensures
        0 <= at < rows.len(),
        color_shows(rows[at], color),
{
    let order = choose|order: Seq<Rgba>|
        {
            &&& #[trigger] crate::collections::lists_set(order, colors)
            &&& rows.len() == order.len()
            &&& forall|i: int|
                #![trigger rows[i]]
                0 <= i < rows.len() ==> rows[i]@ == super::view::channels(order[i])
            &&& forall|i: int, j: int|
                #![trigger order[i], order[j]]
                0 <= i < j < order.len() ==> super::document::color_before(order[i], order[j])
        };
    let at = choose|i: int| 0 <= i < order.len() && #[trigger] order[i] == color;
    assert(rows[at]@ == super::view::channels(order[at]));
    at
}

/// Every row shows a color of the palette, and there are as many rows as colors.
pub proof fn row_shows_a_color(rows: Seq<[u8; 4]>, colors: Set<Rgba>, at: int) -> (color: Rgba)
    requires
        shows_palette(rows, colors),
        0 <= at < rows.len(),
    ensures
        colors.contains(color),
        color_shows(rows[at], color),
        rows.len() == colors.len(),
{
    let order = choose|order: Seq<Rgba>|
        {
            &&& #[trigger] crate::collections::lists_set(order, colors)
            &&& rows.len() == order.len()
            &&& forall|i: int|
                #![trigger rows[i]]
                0 <= i < rows.len() ==> rows[i]@ == super::view::channels(order[i])
            &&& forall|i: int, j: int|
                #![trigger order[i], order[j]]
                0 <= i < j < order.len() ==> super::document::color_before(order[i], order[j])
        };
    assert(rows[at]@ == super::view::channels(order[at]));
    order[at]
}

/// The palette is shown in increasing order.
pub proof fn palette_is_in_order(rows: Seq<[u8; 4]>, colors: Set<Rgba>, i: int, j: int)
    requires
        shows_palette(rows, colors),
        0 <= i < j < rows.len(),
    ensures
        stands_before(rows[i], rows[j]),
{
    let order = choose|order: Seq<Rgba>|
        {
            &&& #[trigger] crate::collections::lists_set(order, colors)
            &&& rows.len() == order.len()
            &&& forall|i: int|
                #![trigger rows[i]]
                0 <= i < rows.len() ==> rows[i]@ == super::view::channels(order[i])
            &&& forall|i: int, j: int|
                #![trigger order[i], order[j]]
                0 <= i < j < order.len() ==> super::document::color_before(order[i], order[j])
        };
    let a = rows[i];
    let b = rows[j];
    assert(super::document::color_before(order[i], order[j]));
    assert(a@ == super::view::channels(order[i]));
    assert(b@ == super::view::channels(order[j]));
    let at: int = if a@[0] != b@[0] {
        0
    } else if a@[1] != b@[1] {
        1
    } else if a@[2] != b@[2] {
        2
    } else {
        3
    };
    assert(a@[at] < b@[at]);
}

/// The colors are listed channel by channel: the first in which two differ decides.
pub proof fn colors_are_ordered_by_channels(a: Rgba, b: Rgba)
    ensures
        super::document::color_before(a, b) <==> a.0 < b.0 || (a.0 == b.0 && a.1 < b.1) || (a.0
            == b.0 && a.1 == b.1 && a.2 < b.2) || (a.0 == b.0 && a.1 == b.1 && a.2 == b.2 && a.3
            < b.3),
{
}

/// A node owns the pixels that it was the last to write.
pub proof fn last_writer_owns(
    pixels: Map<PixelCoord, LWWRegister<Rgba>>,
    node: NodeId,
    coord: PixelCoord,
)
    ensures
        owned(pixels, node).contains(coord) <==> pixels.contains_key(coord)
            && pixels[coord].node_id == node,
{
}

/// A leaderboard has one row for each node that owns a pixel, with the number of the pixels that it
/// owns: more pixels first, and the lower node first where the number is the same.
pub proof fn leaderboard_row_by_row(
    pixels: Map<PixelCoord, LWWRegister<Rgba>>,
    board: Seq<(NodeId, u64)>,
)
    requires
        is_leaderboard(pixels, board),
    ensures
        forall|i: int|
            #![trigger board[i]]
            0 <= i < board.len() ==> board[i].1 > 0 && board[i].1 == Set::new(
                |coord: PixelCoord|
                    pixels.contains_key(coord) && pixels[coord].node_id == board[i].0,
            ).len(),
        forall|i: int, j: int|
            #![trigger board[i], board[j]]
            0 <= i < j < board.len() ==> board[i].1 > board[j].1 || (board[i].1 == board[j].1
                && board[i].0 < board[j].0),
        forall|i: int, j: int|
            #![trigger board[i], board[j]]
            0 <= i < j < board.len() ==> board[i].0 != board[j].0,
        forall|coord: PixelCoord| #[trigger]
            pixels.contains_key(coord) ==> exists|i: int|
                0 <= i < board.len() && (#[trigger] board[i]).0 == pixels[coord].node_id,
{
    assert forall|i: int|
        #![trigger board[i]]
        0 <= i < board.len() implies board[i].1 == Set::new(
        |coord: PixelCoord| pixels.contains_key(coord) && pixels[coord].node_id == board[i].0,
    ).len() by {
        assert(owned(pixels, board[i].0) =~= Set::new(
            |coord: PixelCoord| pixels.contains_key(coord) && pixels[coord].node_id == board[i].0,
        ));
    }
    assert forall|i: int, j: int|
        #![trigger board[i], board[j]]
        0 <= i < j < board.len() implies board[i].0 != board[j].0 by {
        assert(ranks_before(board[i], board[j]));
        if board[i].0 == board[j].0 {
            assert(board[i].1 == owned(pixels, board[i].0).len());
            assert(board[j].1 == owned(pixels, board[j].0).len());
        }
    }
}

/// The leaderboard that is shown has the rows of the leaderboard, in its order.
pub proof fn leaderboard_is_shown(
    rows: Seq<LeaderboardEntry>,
    pixels: Map<PixelCoord, LWWRegister<Rgba>>,
)
    requires
        shows_leaderboard(rows, pixels),
    ensures
        exists|board: Seq<(NodeId, u64)>|
            #[trigger] is_leaderboard(pixels, board) && rows.len() == board.len() && forall|i: int|
                #![trigger rows[i]]
                0 <= i < rows.len() ==> rows[i].peer_id@ == hyphenated(board[i].0)
                    && rows[i].pixels == board[i].1,
        forall|i: int, j: int|
            #![trigger rows[i], rows[j]]
            0 <= i < j < rows.len() ==> rows[i].pixels >= rows[j].pixels,
{
    let board = choose|board: Seq<(NodeId, u64)>|
        {
            &&& #[trigger] is_leaderboard(pixels, board)
            &&& rows.len() == board.len()
            &&& forall|i: int|
                #![trigger rows[i]]
                0 <= i < rows.len() ==> {
                    &&& rows[i].peer_id@ == hyphenated(board[i].0)
                    &&& rows[i].pixels == board[i].1
                }
        };
    leaderboard_row_by_row(pixels, board);
    assert forall|i: int, j: int|
        #![trigger rows[i], rows[j]]
        0 <= i < j < rows.len() implies rows[i].pixels >= rows[j].pixels by {
        assert(board[i].1 >= board[j].1);
    }
}

/// The values that are shown are those that were written last under each key.
pub proof fn values_are_those_written<K, V>(
    registers: Map<K, LWWRegister<V>>,
    rows: Seq<(K, LWWRegister<V>)>,
    key: K,
)
    ensures
        values_of(registers).contains_key(key) <==> registers.contains_key(key),
        registers.contains_key(key) ==> values_of(registers)[key] == registers[key].value,
        last_values(rows).contains_key(key) <==> exists|i: int|
            0 <= i < rows.len() && (#[trigger] rows[i]).0 == key,
        last_values(rows).contains_key(key) ==> exists|i: int|
            0 <= i < rows.len() && (#[trigger] rows[i]).0 == key && rows[i].1.value == last_values(
                rows,
            )[key] && forall|j: int| i < j < rows.len() ==> (#[trigger] rows[j]).0 != key,
    decreases rows.len(),
{
    if rows.len() > 0 {
        let rest = rows.drop_last();
        let last = rows.last();
        values_are_those_written(registers, rest, key);
        assert(rows[rows.len() - 1] == last);
        assert forall|i: int| 0 <= i < rest.len() implies #[trigger] rest[i] == rows[i] by {}
        if last.0 != key && last_values(rest).contains_key(key) {
            let i = choose|i: int|
                0 <= i < rest.len() && (#[trigger] rest[i]).0 == key && rest[i].1.value
                    == last_values(rest)[key] && forall|j: int|
                    i < j < rest.len() ==> (#[trigger] rest[j]).0 != key;
            assert(rows[i].0 == key);
            assert forall|j: int| i < j < rows.len() implies (#[trigger] rows[j]).0 != key by {
                if j < rest.len() {
                    assert(rest[j] == rows[j]);
                }
            }
        }
        if exists|i: int| 0 <= i < rows.len() && (#[trigger] rows[i]).0 == key {
            let i = choose|i: int| 0 <= i < rows.len() && (#[trigger] rows[i]).0 == key;
            if i < rest.len() {
                assert(rest[i].0 == key);
            }
        }
    }
}

/// A full view shows the pixels as they were last written, the active users, the palette, the
/// cursors where they were last moved to, the number of all paints, and the leaderboard.
pub proof fn view_shows_the_canvas(canvas: Canvas, view: CanvasView)
    requires
        shows(canvas, view),
    ensures
        shows_pixels(view.pixels@, values_of(canvas.pixels)),
        shows_peers(view.active_peers@, canvas.users.elements()),
        shows_palette(view.palette@, canvas.palette.elements()),
        shows_cursors(view.cursors@, values_of(canvas.cursors)),
        shows_leaderboard(view.leaderboard@, canvas.pixels),
        view.paint_total == crate::counters::g_counter::total(canvas.paint_counts),
{
}

/// Whatever pixel was written is shown by a full view, with the four channels of its color.
pub proof fn written_pixel_is_shown(canvas: Canvas, view: CanvasView, coord: PixelCoord) -> (at: int)
    requires
        shows(canvas, view),
        canvas.pixels.contains_key(coord),
    ensures
        0 <= at < view.pixels@.len(),
        row_shows(view.pixels@[at], coord, canvas.pixels[coord].value),
{
    pixel_is_shown(view.pixels@, values_of(canvas.pixels), coord)
}

/// A full view shows nothing but the pixels that were written.
pub proof fn shown_pixel_was_written(canvas: Canvas, view: CanvasView, at: int) -> (coord:
    PixelCoord)
    requires
        shows(canvas, view),
        0 <= at < view.pixels@.len(),
    ensures
        canvas.pixels.contains_key(coord),
        row_shows(view.pixels@[at], coord, canvas.pixels[coord].value),
{
    row_shows_a_pixel(view.pixels@, values_of(canvas.pixels), at)
}

/// Whatever cursor there is is shown by a full view, at its place.
pub proof fn present_cursor_is_shown(canvas: Canvas, view: CanvasView, user: NodeId) -> (at: int)
    requires
        shows(canvas, view),
        canvas.cursors.contains_key(user),
    ensures
        0 <= at < view.cursors@.len(),
        cursor_shows(view.cursors@[at], user, canvas.cursors[user].value),
{
    cursor_is_shown(view.cursors@, values_of(canvas.cursors), user)
}

/// A full view shows no cursor that there is not.
pub proof fn shown_cursor_is_present(canvas: Canvas, view: CanvasView, at: int) -> (user: NodeId)
    requires
        shows(canvas, view),
        0 <= at < view.cursors@.len(),
    ensures
        canvas.cursors.contains_key(user),
        cursor_shows(view.cursors@[at], user, canvas.cursors[user].value),
{
    row_shows_a_cursor(view.cursors@, values_of(canvas.cursors), at)
}

/// A view of a change shows the pixels and cursors that were written since the version, and no
/// others; all active users and the number of all paints; the whole palette where it is another
/// one; and the leaderboard where pixels were written.
pub proof fn change_view_shows_the_change(
    canvas: Canvas,
    since: Map<NodeId, u64>,
    colors: Set<Rgba>,
    view: CanvasDeltaView,
)
    requires
        shows_change(canvas, since, colors, view),
    ensures
        ({
            let change = canvas.change_since(since);
            &&& shows_pixels(view.pixels@, values_of(change.pixels))
            &&& view.active_peers is Some && shows_peers(
                view.active_peers->0@,
                canvas.users.elements(),
            )
            &&& view.paint_total is Some && view.paint_total->0
                == crate::counters::g_counter::total(canvas.paint_counts)
            &&& view.palette is None ==> canvas.palette.elements() == colors
            &&& canvas.palette.elements() == colors ==> view.palette is None
            &&& view.palette is Some ==> shows_palette(
                view.palette->0@,
                canvas.palette.elements(),
            )
            &&& view.leaderboard is None <==> change.pixels.dom().is_empty()
            &&& view.leaderboard is Some ==> shows_leaderboard(
                view.leaderboard->0@,
                canvas.pixels,
            )
            &&& view.cursors is None <==> change.cursors.dom().is_empty()
            &&& view.cursors is Some ==> shows_cursors(
                view.cursors->0@,
                values_of(change.cursors),
            )
        }),
{
}

/// A view of a delta shows the last row that the delta has of each pixel and cursor, all active
/// users and the number of all paints of the document; the palette of the document where the delta
/// adds to it or removes from it; and its leaderboard where the delta has pixels.
pub proof fn delta_view_shows_the_delta(
    palette: TaggedDelta<Rgba>,
    pixels: Seq<(PixelCoord, LWWRegister<Rgba>)>,
    cursors: Seq<(NodeId, LWWRegister<PixelCoord>)>,
    canvas: Canvas,
    view: CanvasDeltaView,
)
    requires
        projects(palette, pixels, cursors, canvas, view),
    ensures
        shows_pixels(view.pixels@, last_values(pixels)),
        view.active_peers is Some,
        shows_peers(view.active_peers->0@, canvas.users.elements()),
        view.palette is None <==> palette.adds.is_empty() && palette.removed.is_empty(),
        view.palette is Some ==> shows_palette(view.palette->0@, canvas.palette.elements()),
        view.paint_total is Some,
        view.paint_total->0 == crate::counters::g_counter::total(canvas.paint_counts),
        view.leaderboard is None <==> pixels.len() == 0,
        view.leaderboard is Some ==> shows_leaderboard(view.leaderboard->0@, canvas.pixels),
        view.cursors is None <==> cursors.len() == 0,
        view.cursors is Some ==> shows_cursors(view.cursors->0@, last_values(cursors)),
{
}

} // verus!

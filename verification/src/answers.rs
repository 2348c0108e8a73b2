//! What requests come to: what a client sees after what it asked for.
use crate::api::{
    color_of, cursor_answered, items_of, session_step, split_at_commas, texts, without_slashes,
    CursorRequest, SessionEvent, Status,
};
use crate::canvas::document::{Canvas, CanvasDocument, PixelCoord};
use crate::canvas::effects::{
    adding_is_of_one_color, drop_is_of_one_cursor, move_is_of_one_cursor, paint_changes_one_pixel,
    removing_is_of_one_color, updates_win,
};
use crate::canvas::laws::has_room;
use crate::canvas::shown::{
    color_is_shown, cursor_shows, present_cursor_is_shown, row_shows_a_color,
    shown_cursor_is_present, written_pixel_is_shown,
};
use crate::canvas::view::{shows, shows_palette, CanvasView, Session};
use crate::state::{all_left, AppState};
use crate::text::coord_text;
use crate::traits::Crdt;
use crate::NodeId;
use vstd::prelude::*;

verus! {

/// The color of four channels has these channels, in their order: red, green, blue, alpha. As a
/// client is shown the color, it has them again.
pub proof fn color_has_its_channels(channels: Seq<u8>)
    requires
        channels.len() == 4,
    ensures
        color_of(channels).0 == channels[0],
        color_of(channels).1 == channels[1],
        color_of(channels).2 == channels[2],
        color_of(channels).3 == channels[3],
        crate::canvas::view::channels(color_of(channels)) == channels,
{
    assert(crate::canvas::view::channels(color_of(channels)) =~= channels);
}

/// After a paint request a view of the canvas shows, at the coordinate of the request, exactly the
/// four channels of the request.
pub proof fn painted_color_is_shown(
    canvas: Canvas,
    x: u8,
    y: u8,
    channels: Seq<u8>,
    node: NodeId,
    view: CanvasView,
) -> (at: int)
    requires
        CanvasDocument::valid(canvas),
        has_room(canvas, node),
        channels.len() == 4,
        shows(canvas.painted((x, y), color_of(channels), node), view),
    ensures
        0 <= at < view.pixels@.len(),
        view.pixels@[at].0@ == coord_text(x, y),
        view.pixels@[at].1@ == channels,
{
    let color = color_of(channels);
    let after = canvas.painted((x, y), color, node);
    paint_changes_one_pixel(canvas, (x, y), color, node);
    updates_win(canvas, (x, y), color, node, (x, y), node);
    let at = written_pixel_is_shown(after, view, (x, y));
    assert(view.pixels@[at].1@ =~= channels);
    at
}

/// A paint request leaves every other pixel as it was.
pub proof fn other_pixels_stay(
    canvas: Canvas,
    x: u8,
    y: u8,
    channels: Seq<u8>,
    node: NodeId,
    other: PixelCoord,
)
    requires
        has_room(canvas, node),
        other != (x, y),
    ensures
        canvas.painted((x, y), color_of(channels), node).color_at(other) == canvas.color_at(other),
{
    paint_changes_one_pixel(canvas, (x, y), color_of(channels), node);
}

/// After a color was added, the palette that clients are shown has a row with exactly the four
/// channels of the request.
pub proof fn added_color_is_shown(
    canvas: Canvas,
    channels: Seq<u8>,
    node: NodeId,
    rows: Seq<[u8; 4]>,
) -> (at: int)
    requires
        has_room(canvas, node),
        channels.len() == 4,
        shows_palette(
            rows,
            canvas.color_added(color_of(channels), node).palette.elements(),
        ),
    ensures
        0 <= at < rows.len(),
        rows[at]@ == channels,
{
    let color = color_of(channels);
    adding_is_of_one_color(canvas, color, node);
    let at = color_is_shown(rows, canvas.color_added(color, node).palette.elements(), color);
    assert(rows[at]@ =~= channels);
    at
}

/// After a color was removed, no row of the palette that clients are shown has its channels.
pub proof fn removed_color_is_not_shown(
    canvas: Canvas,
    channels: Seq<u8>,
    node: NodeId,
    rows: Seq<[u8; 4]>,
    at: int,
)
    requires
        has_room(canvas, node),
        channels.len() == 4,
        shows_palette(
            rows,
            canvas.color_removed(color_of(channels), node).palette.elements(),
        ),
        0 <= at < rows.len(),
    ensures
        rows[at]@ != channels,
{
    let color = color_of(channels);
    removing_is_of_one_color(canvas, color, node);
    let shown = row_shows_a_color(
        rows,
        canvas.color_removed(color, node).palette.elements(),
        at,
    );
    assert(shown != color);
}

/// Different channels make different colors.
pub proof fn channels_tell_colors_apart(a: Seq<u8>, b: Seq<u8>)
    requires
        a.len() == 4,
        b.len() == 4,
        color_of(a) == color_of(b),
    ensures
        a == b,
{
    color_has_its_channels(a);
    color_has_its_channels(b);
}

/// After a cursor request that names a user, a view of the canvas shows the cursor of that user at
/// the place of the request.
pub proof fn moved_cursor_is_shown(
    canvas: Canvas,
    user: NodeId,
    x: u8,
    y: u8,
    node: NodeId,
    view: CanvasView,
) -> (at: int)
    requires
        CanvasDocument::valid(canvas),
        has_room(canvas, node),
        shows(canvas.cursor_moved(user, (x, y), node), view),
    ensures
        0 <= at < view.cursors@.len(),
        view.cursors@[at].0@ == crate::text::hyphenated(user),
        view.cursors@[at].1@ == seq![x, y],
{
    move_is_of_one_cursor(canvas, user, (x, y), node);
    updates_win(canvas, (x, y), (0, 0, 0, 0), user, (x, y), node);
    let at = present_cursor_is_shown(canvas.cursor_moved(user, (x, y), node), view, user);
    assert(view.cursors@[at].1@ =~= seq![x, y]);
    at
}

/// After a session has disconnected, no view shows a cursor of its user, and every other cursor is
/// shown where it was.
pub proof fn dropped_cursor_is_not_shown(
    canvas: Canvas,
    user: NodeId,
    node: NodeId,
    view: CanvasView,
    other: NodeId,
)
    requires
        has_room(canvas, node),
        shows(canvas.cursor_dropped(user, node), view),
    ensures
        forall|at: int|
            0 <= at < view.cursors@.len() ==> (#[trigger] view.cursors@[at]).0@
                != crate::text::hyphenated(user),
        other != user && canvas.cursors.contains_key(other) ==> exists|at: int|
            0 <= at < view.cursors@.len() && cursor_shows(
                #[trigger] view.cursors@[at],
                other,
                canvas.cursors[other].value,
            ),
{
    let after = canvas.cursor_dropped(user, node);
    drop_is_of_one_cursor(canvas, user, node);
    assert forall|at: int| 0 <= at < view.cursors@.len() implies (#[trigger] view.cursors@[at]).0@
        != crate::text::hyphenated(user) by {
        let shown = shown_cursor_is_present(after, view, at);
        if view.cursors@[at].0@ == crate::text::hyphenated(user) {
            crate::text::text_tells_ids_apart(shown, user);
        }
    }
    if other != user && canvas.cursors.contains_key(other) {
        let at = present_cursor_is_shown(after, view, other);
        assert(cursor_shows(view.cursors@[at], other, canvas.cursors[other].value));
    }
}

/// The answer to a cursor request: done where the text names a user, refused and without effect
/// where it does not. Nothing but the canvas changes.
pub proof fn cursor_request_is_answered(
    before: AppState,
    req: CursorRequest,
    after: AppState,
    status: Status,
)
    requires
        cursor_answered(before, req, after, status),
    ensures
        crate::text::parsed_uuid(req.user_id@) is None ==> status == Status::BadRequest && after
            == before,
        crate::text::parsed_uuid(req.user_id@) is Some ==> status == Status::NoContent
            && after.canvas@ == before.canvas@.cursor_moved(
            crate::text::parsed_uuid(req.user_id@)->0,
            (req.x, req.y),
            before.node_id,
        ),
        after.node_id == before.node_id,
        after.engine == before.engine,
        after.ws_session_count == before.ws_session_count,
{
}

/// Two states are the same but for the canvas where everything else is equal.
pub proof fn same_but_canvas_means(a: AppState, b: AppState)
    ensures
        a.same_but_canvas(b) <==> a.node_id == b.node_id && a.engine == b.engine
            && a.ws_session_count == b.ws_session_count,
{
}

/// A client is at a canvas where it has its version and shows its palette.
pub proof fn session_is_at_what_it_shows(session: Session, canvas: Canvas)
    ensures
        session.is_at(canvas) <==> session.version@ == canvas.clock && session.palette@
            == canvas.palette.active.dom(),
{
}

/// Users that were removed have no cursor; every other cursor stays where it was, every pixel and
/// every color stays, and so does every other user.
pub proof fn removed_users_lose_their_cursors(canvas: Canvas, users: Seq<NodeId>, node: NodeId)
    ensures
        ({
            let after = all_left(canvas, users, node);
            &&& forall|user: NodeId| #[trigger]
                after.cursors.contains_key(user) <==> canvas.cursors.contains_key(user)
                    && !users.contains(user)
            &&& forall|user: NodeId| #[trigger]
                after.cursors.contains_key(user) ==> after.cursors[user] == canvas.cursors[user]
            &&& forall|user: NodeId| #[trigger]
                after.users.active.contains_key(user) <==> canvas.users.active.contains_key(user)
                    && !users.contains(user)
            &&& forall|user: NodeId| #[trigger]
                after.users.active.contains_key(user) ==> after.users.active[user]
                    == canvas.users.active[user]
            &&& after.pixels == canvas.pixels
            &&& after.palette == canvas.palette
            &&& after.paint_counts == canvas.paint_counts
            &&& after.paint_times == canvas.paint_times
            &&& after.palette_removals == canvas.palette_removals
        }),
    decreases users.len(),
{
    if users.len() > 0 {
        let rest = users.drop_last();
        removed_users_lose_their_cursors(canvas, rest, node);
        assert forall|user: NodeId| users.contains(user) <==> rest.contains(user) || user
            == users.last() by {
            if users.contains(user) {
                let i = choose|i: int| 0 <= i < users.len() && users[i] == user;
                if i < rest.len() {
                    assert(rest[i] == user);
                }
            }
            if rest.contains(user) {
                let i = choose|i: int| 0 <= i < rest.len() && rest[i] == user;
                assert(users[i] == user);
            }
            assert(users[users.len() - 1] == users.last());
        }
    }
}

/// A path without its leading slashes is what follows them: it starts with none, only slashes are
/// missing, and there is one such text.
pub proof fn slashes_are_taken_off(path: Seq<char>, a: Seq<char>, b: Seq<char>)
    requires
        without_slashes(path, a),
        without_slashes(path, b),
    ensures
        a == b,
        a.len() > 0 ==> a[0] != '/',
        a.len() <= path.len(),
        path.skip(path.len() - a.len()) == a,
        forall|i: int| 0 <= i < path.len() - a.len() ==> #[trigger] path[i] == '/',
{
    if a.len() < b.len() {
        assert(path[path.len() - b.len()] == b[0]);
    }
    if b.len() < a.len() {
        assert(path[path.len() - a.len()] == a[0]);
    }
    assert(a =~= b);
}

/// A list is split at its commas: what is before a comma and what is behind it are split apart.
proof fn split_apart(a: Seq<char>, b: Seq<char>)
    ensures
        split_at_commas(a + seq![','] + b) == split_at_commas(a) + split_at_commas(b),
        split_at_commas(b).len() > 0,
    decreases b.len(),
{
    let whole = a + seq![','] + b;
    if b.len() == 0 {
        assert(whole.drop_last() =~= a);
        assert(whole.last() == ',');
        assert(split_at_commas(whole) =~= split_at_commas(a) + split_at_commas(b));
    } else {
        let rest = b.drop_last();
        split_apart(a, rest);
        assert(whole.drop_last() =~= a + seq![','] + rest);
        assert(whole.last() == b.last());
        let before = split_at_commas(a) + split_at_commas(rest);
        assert(before.last() == split_at_commas(rest).last());
        assert(split_at_commas(whole) =~= split_at_commas(a) + split_at_commas(b));
    }
}

/// A text without a comma is not split.
proof fn split_of_word(word: Seq<char>)
    requires
        !word.contains(','),
    ensures
        split_at_commas(word) == seq![word],
    decreases word.len(),
{
    if word.len() > 0 {
        let rest = word.drop_last();
        assert(!rest.contains(',')) by {
            if rest.contains(',') {
                let i = choose|i: int| 0 <= i < rest.len() && rest[i] == ',';
                assert(word[i] == ',');
            }
        }
        split_of_word(rest);
        assert(word[word.len() - 1] == word.last());
        assert(rest.push(word.last()) =~= word);
        assert(split_at_commas(word) =~= seq![word]);
    } else {
        assert(word =~= Seq::empty());
        assert(split_at_commas(word) =~= seq![word]);
    }
}

/// The items of a list: none of an empty text; of a text without a comma, that text; and of a list
/// with a comma in it, the items before the comma and then the items behind it.
pub proof fn items_are_between_commas(a: Seq<char>, b: Seq<char>)
    ensures
        items_of(Seq::empty()) == Seq::<Seq<char>>::empty(),
        a.len() > 0 && !a.contains(',') ==> items_of(a) == seq![a],
        items_of(a + seq![','] + b) == items_of(a) + items_of(b),
{
    let keep = |item: Seq<char>| item.len() > 0;
    reveal(Seq::filter);
    assert(items_of(Seq::empty()) =~= Seq::empty()) by {
        let nothing = split_at_commas(Seq::empty());
        assert(nothing.len() == 1 && nothing.last().len() == 0);
        assert(nothing.drop_last() =~= Seq::empty());
        assert(!keep(nothing.last()));
        assert(nothing.drop_last().filter(keep) =~= Seq::empty());
        assert(nothing.filter(keep) =~= Seq::empty());
    }
    if a.len() > 0 && !a.contains(',') {
        split_of_word(a);
        assert(seq![a].drop_last() =~= Seq::empty());
        assert(items_of(a) =~= seq![a]);
    }
    split_apart(a, b);
    Seq::<Seq<char>>::filter_distributes_over_add(split_at_commas(a), split_at_commas(b), keep);
}

/// The texts of strings are the texts that they hold, one for one.
pub proof fn texts_of_strings(list: Seq<String>)
    ensures
        texts(list).len() == list.len(),
        forall|i: int| 0 <= i < list.len() ==> #[trigger] texts(list)[i] == list[i]@,
{
}

/// The canvas and the number of sessions after the events, one after the other.
pub open spec fn after_sessions(
    canvas: Canvas,
    sessions: usize,
    events: Seq<SessionEvent>,
    node: NodeId,
) -> (Canvas, usize)
    decreases events.len(),
{
    if events.len() == 0 {
        (canvas, sessions)
    } else {
        let before = after_sessions(canvas, sessions, events.drop_last(), node);
        session_step(before.0, before.1, events.last(), node)
    }
}

/// How many more of the events are connections than disconnections.
pub open spec fn balance(events: Seq<SessionEvent>) -> int
    decreases events.len(),
{
    if events.len() == 0 {
        0
    } else {
        balance(events.drop_last()) + match events.last() {
            SessionEvent::Connect => 1int,
            SessionEvent::Disconnect(user) => -1int,
        }
    }
}

/// Presence follows the sessions: while browsers connect and disconnect, a node that was not active
/// is active exactly while it has a session. No other user is touched, and neither is a cursor of a
/// user other than this node and those who disconnected.
pub proof fn presence_follows_sessions(
    canvas: Canvas,
    events: Seq<SessionEvent>,
    node: NodeId,
    other: NodeId,
)
    requires
        !canvas.users.active.contains_key(node),
        forall|n: int|
            0 <= n <= events.len() ==> 0 <= #[trigger] balance(events.take(n)) < usize::MAX,
    ensures
        ({
            let after = after_sessions(canvas, 0, events, node);
            &&& after.1 == balance(events)
            &&& after.0.users.active.contains_key(node) <==> balance(events) > 0
            &&& other != node ==> (after.0.users.active.contains_key(other)
                <==> canvas.users.active.contains_key(other))
            &&& other != node && (forall|i: int|
                0 <= i < events.len() ==> #[trigger] events[i] != SessionEvent::Disconnect(other))
                ==> (after.0.cursors.contains_key(other) <==> canvas.cursors.contains_key(other))
            &&& other != node && after.0.cursors.contains_key(other) ==> after.0.cursors[other]
                == canvas.cursors[other]
            &&& after.0.pixels == canvas.pixels
            &&& after.0.palette == canvas.palette
        }),
    decreases events.len(),
{
    if events.len() > 0 {
        let rest = events.drop_last();
        assert forall|n: int| 0 <= n <= rest.len() implies 0 <= #[trigger] balance(rest.take(n))
            < usize::MAX by {
            assert(rest.take(n) =~= events.take(n));
        }
        presence_follows_sessions(canvas, rest, node, other);
        assert(events.take(events.len() as int) =~= events);
        assert(0 <= balance(events.take(events.len() as int)) < usize::MAX);
        assert(events[events.len() - 1] == events.last());
        let before = after_sessions(canvas, 0, rest, node);
        if forall|i: int|
            0 <= i < events.len() ==> #[trigger] events[i] != SessionEvent::Disconnect(other) {
            assert forall|i: int| 0 <= i < rest.len() implies #[trigger] rest[i]
                != SessionEvent::Disconnect(other) by {
                assert(rest[i] == events[i]);
            }
        }
    } else {
        assert(events.take(0) =~= events);
    }
}

/// The cursor of a browser that has disconnected is gone.
pub proof fn disconnecting_drops_the_cursor(
    canvas: Canvas,
    sessions: usize,
    user: NodeId,
    node: NodeId,
)
    ensures
        !session_step(canvas, sessions, SessionEvent::Disconnect(user), node).0.cursors.contains_key(
            user,
        ),
{
}

/// After the departed were removed from the users, no active user is among the departed, and every
/// active user who is not among them stays.
pub proof fn departed_users_are_evicted(
    canvas: Canvas,
    tombstones: Set<NodeId>,
    users: Seq<NodeId>,
    node: NodeId,
    user: NodeId,
)
    requires
        crate::collections::lists_set(users, canvas.users.elements().intersect(tombstones)),
    ensures
        all_left(canvas, users, node).users.active.contains_key(user)
            <==> canvas.users.active.contains_key(user) && !tombstones.contains(user),
{
    removed_users_lose_their_cursors(canvas, users, node);
    crate::collections::listed_set_is_the_set(
        users,
        canvas.users.elements().intersect(tombstones),
    );
    assert(users.contains(user) <==> users.to_set().contains(user));
}

} // verus!

//! What the HTTP and WebSocket interface answers, and what it does to the state.
//!
//! All canvas mutations go through [`AppState::mutate`].
use crate::canvas::document::{Canvas, CanvasDocument, Rgba};
use crate::canvas::view::{
    leaderboard_entries, palette_rows, CanvasDeltaView, CanvasView, LeaderboardEntry, Session,
};
use crate::net::addr::SocketAddress;
use crate::state::AppState;
use crate::text::{parse_uuid, uuid_text};
use crate::traits::{Crdt, DeltaCrdt};
use crate::NodeId;
use vstd::prelude::*;
use vstd::string::*;

verus! {

/// Message pushed to the browser over the WebSocket.
///
/// `Snapshot` carries the full [`CanvasView`] and is sent once when a client connects. `Delta`
/// carries a sparse [`CanvasDeltaView`] computed against that client's last-known version.
pub enum WsMessage {
    Snapshot(CanvasView),
    Delta(CanvasDeltaView),
}

/// Body for `POST /api/canvas/paint`.
pub struct PaintRequest {
    pub x: u8,
    pub y: u8,
    pub color: [u8; 4],
}

/// Response for `GET /api/node`: identifies this peer on the network.
pub struct NodeInfo {
    /// UUID of this node, assigned at startup.
    pub id: String,
}

/// Body for `POST /api/palette` and `DELETE /api/palette`.
pub struct PaletteRequest {
    pub color: [u8; 4],
}

/// Body for `POST /api/peers`: adds a runtime bootstrap peer to the gossip engine.
pub struct BootstrapRequest {
    pub addr: String,
}

/// Body for `POST /api/canvas/cursor`.
pub struct CursorRequest {
    /// UUID of the user whose cursor is being updated.
    pub user_id: String,
    pub x: u8,
    pub y: u8,
}

/// How a request is answered.
#[derive(Debug, Clone, Copy, PartialEq, Eq, Structural)]
pub enum Status {
    Created,
    NoContent,
    BadRequest,
    NotFound,
}

/// What is served for a path of the frontend.
#[derive(Debug, Clone, Copy, PartialEq, Eq, Structural)]
pub enum Asset {
    /// The asset at the path.
    AtPath,
    /// The start page.
    Index,
    /// There is no frontend to serve.
    Missing,
}

/// The color of four channels.
pub open spec fn color_of(channels: Seq<u8>) -> Rgba {
    (channels[0], channels[1], channels[2], channels[3])
}

/// The color of four channels.
fn to_color(channels: &[u8; 4]) -> (color: Rgba)
    ensures
        color == color_of(channels@),
{
    (channels[0], channels[1], channels[2], channels[3])
}

/// Whether the clock of the canvas has room for `n` more mutations.
pub fn has_room(state: &AppState, n: u64) -> (room: bool)
    ensures
        room == crate::clocks::can_tick_times(state.canvas@.clock, n as nat),
        room && n > 0 ==> crate::clocks::can_tick(state.canvas@.clock),
{
    let time: u64 = state.canvas.clock.lamport_timestamp();
    let room = time <= u64::MAX - n;
    proof {
        let clock = state.canvas@.clock;
        if room {
            assert forall|node: NodeId| #[trigger] crate::counts::count(clock, node) + n as nat
                <= u64::MAX by {
                assert(crate::counts::count(clock, node) <= time);
            }
            crate::clocks::room_bounds_latest(clock, time, n as nat);
        } else {
            let latest = choose|l: NodeId| #[trigger] crate::counts::count(clock, l) == time;
            assert(crate::counts::count(clock, latest) + n as nat > u64::MAX);
        }
    }
    room
}

/// Whether this node can paint: the clock has room, and so has its count of paints.
pub fn can_paint(state: &AppState) -> (room: bool)
    ensures
        room ==> crate::clocks::can_tick(state.canvas@.clock),
        room == (crate::clocks::can_tick_times(state.canvas@.clock, 1) && crate::counts::count(
            state.canvas@.paint_counts,
            state.node_id,
        ) < u64::MAX),
{
    has_room(state, 1) && state.canvas.paint_counts.get(&state.node_id) < u64::MAX
}

/// `GET /api/canvas`: the full canvas.
pub fn get_canvas(state: &AppState) -> (view: CanvasView)
    requires
        crate::counters::GCounter::readable(state.canvas@.paint_counts),
    ensures
        crate::canvas::view::shows(state.canvas@, view),
{
    CanvasView::from(state.canvas())
}

/// `POST /api/canvas/paint`: paint a single pixel.
pub fn paint(state: &mut AppState, req: &PaintRequest)
    requires
        crate::clocks::can_tick(old(state).canvas@.clock),
        crate::counts::count(old(state).canvas@.paint_counts, old(state).node_id) < u64::MAX,
    ensures
        final(state).canvas@ == old(state).canvas@.painted(
            (req.x, req.y),
            color_of(req.color@),
            old(state).node_id,
        ),
        final(state).same_but_canvas(*old(state)),
{
    let color = to_color(&req.color);
    let x: u8 = req.x;
    let y: u8 = req.y;
    let act = |doc: &mut CanvasDocument, id: NodeId| -> (done: ())
        requires
            crate::clocks::can_tick(doc@.clock),
            crate::counts::count(doc@.paint_counts, id) < u64::MAX,
        ensures
            final(doc)@ == old(doc)@.painted((x, y), color, id),
        { doc.paint(x, y, color, id) };
    state.mutate(act);
}

/// `GET /api/node`: this node.
pub fn node_info(state: &AppState) -> (info: NodeInfo)
    ensures
        info.id@ == crate::text::hyphenated(state.node_id),
{
    NodeInfo { id: uuid_text(state.node_id()) }
}

/// Moves the cursor of `user`, which is what the request names, if it names one.
pub fn move_cursor(state: &mut AppState, user: Option<NodeId>, x: u8, y: u8) -> (status: Status)
    requires
        user is Some ==> crate::clocks::can_tick(old(state).canvas@.clock),
    ensures
        match user {
            Some(user) => {
                &&& status == Status::NoContent
                &&& final(state).canvas@ == old(state).canvas@.cursor_moved(
                    user,
                    (x, y),
                    old(state).node_id,
                )
                &&& final(state).same_but_canvas(*old(state))
            },
            None => status == Status::BadRequest && *final(state) == *old(state),
        },
{
    match user {
        Some(user) => {
            let act = |doc: &mut CanvasDocument, id: NodeId| -> (done: ())
                requires
                    crate::clocks::can_tick(doc@.clock),
                ensures
                    final(doc)@ == old(doc)@.cursor_moved(user, (x, y), id),
                { doc.update_cursor(user, x, y, id) };
            state.mutate(act);
            Status::NoContent
        },
        None => Status::BadRequest,
    }
}

/// `POST /api/canvas/cursor`: update the cursor position for a user. Answers 204 No Content, or
/// 400 Bad Request if the user is not a UUID.
pub fn cursor(state: &mut AppState, req: &CursorRequest) -> (status: Status)
    requires
        crate::text::parsed_uuid(req.user_id@) is Some ==> crate::clocks::can_tick(
            old(state).canvas@.clock,
        ),
    ensures
        cursor_answered(*old(state), *req, *final(state), status),
        forall|user: NodeId|
            req.user_id@ == #[trigger] crate::text::hyphenated(user) ==> status
                == Status::NoContent && final(state).canvas@ == old(state).canvas@.cursor_moved(
                user,
                (req.x, req.y),
                old(state).node_id,
            ),
{
    let user = parse_uuid(req.user_id.as_str());
    move_cursor(state, user, req.x, req.y)
}

/// The answer to a cursor request, and what it makes of the state: the cursor of the user that
/// the request names is moved; where it names none, nothing changes.
pub open spec fn cursor_answered(
    before: AppState,
    req: CursorRequest,
    after: AppState,
    status: Status,
) -> bool {
    match crate::text::parsed_uuid(req.user_id@) {
        Some(user) => {
            &&& status == Status::NoContent
            &&& after.canvas@ == before.canvas@.cursor_moved(user, (req.x, req.y), before.node_id)
            &&& after.same_but_canvas(before)
        },
        None => status == Status::BadRequest && after == before,
    }
}

/// [`cursor`], where the clock may have no room for a move. Then a request that names a user gets
/// no answer, and nothing changes.
pub fn try_cursor(state: &mut AppState, req: &CursorRequest) -> (status: Option<Status>)
    ensures
        status is None <==> crate::text::parsed_uuid(req.user_id@) is Some
            && !crate::clocks::can_tick_times(old(state).canvas@.clock, 1),
        status is None ==> *final(state) == *old(state),
        status matches Some(status) ==> cursor_answered(
            *old(state),
            *req,
            *final(state),
            status,
        ),
{
    if parse_uuid(req.user_id.as_str()).is_some() && !has_room(state, 1) {
        return None;
    }
    Some(cursor(state, req))
}

/// `GET /api/palette`: the shared palette.
pub fn get_palette(state: &AppState) -> (rows: Vec<[u8; 4]>)
    ensures
        crate::canvas::view::shows_palette(rows@, state.canvas@.palette.elements()),
{
    palette_rows(state.canvas())
}

/// `POST /api/palette`: add a color to the shared palette. Answers 201 Created.
pub fn add_palette(state: &mut AppState, req: &PaletteRequest) -> (status: Status)
    requires
        crate::clocks::can_tick(old(state).canvas@.clock),
    ensures
        status == Status::Created,
        final(state).canvas@ == old(state).canvas@.color_added(
            color_of(req.color@),
            old(state).node_id,
        ),
        final(state).same_but_canvas(*old(state)),
{
    let color = to_color(&req.color);
    let act = |doc: &mut CanvasDocument, id: NodeId| -> (done: ())
        requires
            crate::clocks::can_tick(doc@.clock),
        ensures
            final(doc)@ == old(doc)@.color_added(color, id),
        { doc.add_palette_color(color, &id) };
    state.mutate(act);
    Status::Created
}

/// `DELETE /api/palette`: remove a color from the shared palette. Answers 204 No Content, or 404
/// Not Found if the color was not in the palette.
pub fn remove_palette(state: &mut AppState, req: &PaletteRequest) -> (status: Status)
    requires
        crate::clocks::can_tick(old(state).canvas@.clock),
    ensures
        status == if old(state).canvas@.palette.elements().contains(color_of(req.color@)) {
            Status::NoContent
        } else {
            Status::NotFound
        },
        final(state).canvas@ == old(state).canvas@.color_removed(
            color_of(req.color@),
            old(state).node_id,
        ),
        final(state).same_but_canvas(*old(state)),
{
    let color = to_color(&req.color);
    let act = |doc: &mut CanvasDocument, id: NodeId| -> (removed: bool)
        requires
            crate::clocks::can_tick(doc@.clock),
        ensures
            removed == old(doc)@.palette.elements().contains(color),
            final(doc)@ == old(doc)@.color_removed(color, id),
        { doc.remove_palette_color(&color, id) };
    let removed = state.mutate(act);
    if removed {
        Status::NoContent
    } else {
        Status::NotFound
    }
}

/// `GET /api/leaderboard`: pixel ownership counts sorted descending.
pub fn get_leaderboard(state: &AppState) -> (board: Vec<LeaderboardEntry>)
    ensures
        crate::canvas::view::shows_leaderboard(board@, state.canvas@.pixels),
{
    leaderboard_entries(state.canvas())
}

/// `POST /api/peers`: add a bootstrap peer to the gossip engine at runtime, where `addr` is what
/// the request names, if it names an address. Answers 204 No Content, or 400 Bad Request.
pub fn add_peer(state: &mut AppState, addr: Option<SocketAddress>) -> (status: Status)
    ensures
        match addr {
            Some(addr) => {
                &&& status == Status::NoContent
                &&& final(state).node_id == old(state).node_id
                &&& final(state).canvas == old(state).canvas
                &&& final(state).ws_session_count == old(state).ws_session_count
                &&& match old(state).engine {
                    Some(engine) => {
                        &&& final(state).engine is Some
                        &&& final(state).engine->0.registry@ == engine.registry@.with_bootstrap(
                            addr,
                        )
                        &&& final(state).engine->0.same_node(engine)
                        &&& engine.wf() ==> final(state).engine->0.wf()
                    },
                    None => final(state).engine is None,
                }
            },
            None => status == Status::BadRequest && *final(state) == *old(state),
        },
{
    match addr {
        Some(addr) => {
            state.add_bootstrap(addr);
            Status::NoContent
        },
        None => Status::BadRequest,
    }
}

/// `rest` is `path` without its leading slashes.
pub open spec fn without_slashes(path: Seq<char>, rest: Seq<char>) -> bool {
    &&& rest.len() <= path.len()
    &&& rest == path.skip(path.len() - rest.len())
    &&& forall|i: int| 0 <= i < path.len() - rest.len() ==> #[trigger] path[i] == '/'
    &&& rest.len() > 0 ==> rest[0] != '/'
}

/// The asset that a path asks for: the path without its leading slashes, or the start page where
/// nothing is left.
pub fn asset_path(path: &str) -> (asset: String)
    ensures
        exists|rest: Seq<char>|
            #[trigger] without_slashes(path@, rest) && asset@ == if rest.len() == 0 {
                "index.html"@
            } else {
                rest
            },
{
    let count: usize = path.unicode_len();
    let mut start: usize = 0;
    while start < count && path.get_char(start) == '/'
        invariant
            count == path@.len(),
            start <= count,
            forall|i: int| 0 <= i < start ==> #[trigger] path@[i] == '/',
        decreases count - start,
    {
        start = start + 1;
    }
    let ghost rest = path@.skip(start as int);
    assert(without_slashes(path@, rest)) by {
        assert(path@.len() - rest.len() == start);
    }
    if start == count {
        String::from_str("index.html")
    } else {
        let asset = String::from_str(path.substring_char(start, count));
        assert(asset@ =~= rest);
        asset
    }
}

/// What is served, given whether there is an asset at the path and whether there is a start page.
pub fn choose_asset(at_path: bool, index: bool) -> (asset: Asset)
    ensures
        asset == if at_path {
            Asset::AtPath
        } else if index {
            Asset::Index
        } else {
            Asset::Missing
        },
{
    if at_path {
        Asset::AtPath
    } else if index {
        Asset::Index
    } else {
        Asset::Missing
    }
}

/// The user of a WebSocket session, where `asked` is what its `id` parameter reads as, if it
/// reads as a UUID: the user asked for, or the fresh one.
pub fn session_user_of(asked: Option<NodeId>, fresh: NodeId) -> (user: NodeId)
    ensures
        user == match asked {
            Some(id) => id,
            None => fresh,
        },
{
    match asked {
        Some(id) => id,
        None => fresh,
    }
}

/// The user of a WebSocket session: the one that its `id` parameter names, or the fresh one where
/// the parameter is absent or not a UUID.
pub fn session_user(id: &Option<String>, fresh: NodeId) -> (user: NodeId)
    ensures
        user == match *id {
            Some(text) => match crate::text::parsed_uuid(text@) {
                Some(id) => id,
                None => fresh,
            },
            None => fresh,
        },
{
    let asked = match id {
        Some(text) => parse_uuid(text.as_str()),
        None => None,
    };
    session_user_of(asked, fresh)
}

/// What a browser does to the sessions of a node.
pub enum SessionEvent {
    /// It connects.
    Connect,
    /// It disconnects; its cursor was that of the user.
    Disconnect(NodeId),
}

/// The canvas and the number of sessions after an event.
pub open spec fn session_step(
    canvas: Canvas,
    sessions: usize,
    event: SessionEvent,
    node: NodeId,
) -> (Canvas, usize) {
    match event {
        SessionEvent::Connect => (
            if sessions == 0 {
                canvas.joined(node, node)
            } else {
                canvas
            },
            if sessions == usize::MAX {
                0
            } else {
                (sessions + 1) as usize
            },
        ),
        SessionEvent::Disconnect(user) => (
            if sessions == 1 {
                canvas.cursor_dropped(user, node).left(node, node)
            } else {
                canvas.cursor_dropped(user, node)
            },
            if sessions == 0 {
                usize::MAX
            } else {
                (sessions - 1) as usize
            },
        ),
    }
}

/// A browser has connected. On the first connection this node joins the active users.
pub fn connect(state: &mut AppState)
    requires
        old(state).ws_session_count == 0 ==> crate::clocks::can_tick(old(state).canvas@.clock),
    ensures
        final(state).node_id == old(state).node_id,
        final(state).engine == old(state).engine,
        final(state).ws_session_count == if old(state).ws_session_count == usize::MAX {
            0
        } else {
            (old(state).ws_session_count + 1) as usize
        },
        final(state).canvas@ == if old(state).ws_session_count == 0 {
            old(state).canvas@.joined(old(state).node_id, old(state).node_id)
        } else {
            old(state).canvas@
        },
        (final(state).canvas@, final(state).ws_session_count) == session_step(
            old(state).canvas@,
            old(state).ws_session_count,
            SessionEvent::Connect,
            old(state).node_id,
        ),
{
    if state.register_ws_client() {
        let act = |doc: &mut CanvasDocument, id: NodeId| -> (done: ())
            requires
                crate::clocks::can_tick(doc@.clock),
            ensures
                final(doc)@ == old(doc)@.joined(id, id),
            { doc.add_user(id, &id) };
        state.mutate(act);
    }
}

/// A browser has disconnected. Its cursor is dropped, and with the last connection this node
/// leaves the active users.
pub fn disconnect(state: &mut AppState, user_id: NodeId)
    requires
        crate::clocks::can_tick(old(state).canvas@.clock),
        old(state).ws_session_count == 1 ==> crate::clocks::can_tick_times(
            old(state).canvas@.clock,
            2,
        ),
    ensures
        final(state).node_id == old(state).node_id,
        final(state).engine == old(state).engine,
        final(state).ws_session_count == if old(state).ws_session_count == 0 {
            usize::MAX
        } else {
            (old(state).ws_session_count - 1) as usize
        },
        final(state).canvas@ == if old(state).ws_session_count == 1 {
            old(state).canvas@.cursor_dropped(user_id, old(state).node_id).left(
                old(state).node_id,
                old(state).node_id,
            )
        } else {
            old(state).canvas@.cursor_dropped(user_id, old(state).node_id)
        },
        (final(state).canvas@, final(state).ws_session_count) == session_step(
            old(state).canvas@,
            old(state).ws_session_count,
            SessionEvent::Disconnect(user_id),
            old(state).node_id,
        ),
{
    let was_last = state.deregister_ws_client();
    let act = |doc: &mut CanvasDocument, id: NodeId| -> (done: ())
        requires
            crate::clocks::can_tick(doc@.clock),
            was_last ==> crate::clocks::can_tick_times(doc@.clock, 2),
        ensures
            final(doc)@ == if was_last {
                old(doc)@.cursor_dropped(user_id, id).left(id, id)
            } else {
                old(doc)@.cursor_dropped(user_id, id)
            },
        { leave(doc, user_id, was_last, id) };
    state.mutate(act);
}

/// What a disconnection does to the canvas.
fn leave(doc: &mut CanvasDocument, user_id: NodeId, was_last: bool, id: NodeId)
    requires
        crate::clocks::can_tick(old(doc)@.clock),
        was_last ==> crate::clocks::can_tick_times(old(doc)@.clock, 2),
    ensures
        final(doc)@ == if was_last {
            old(doc)@.cursor_dropped(user_id, id).left(id, id)
        } else {
            old(doc)@.cursor_dropped(user_id, id)
        },
{
    let time: u64 = doc.clock.lamport_timestamp();
    proof {
        if was_last {
            crate::clocks::room_bounds_latest(doc@.clock, time, 2);
            crate::clocks::tick_leaves_room(doc@.clock, id, (time + 1) as u64, 2);
        }
    }
    doc.remove_cursor_entry(&user_id, id);
    if was_last {
        proof {
            assert forall|node: NodeId| #[trigger] crate::counts::count(doc@.clock, node)
                < u64::MAX by {
                assert(crate::counts::count(doc@.clock, node) + 1 <= u64::MAX);
            }
        }
        doc.remove_user(&id, id);
    }
}

/// The first message to a client: the full canvas. The client is then at the document.
pub fn snapshot(doc: &CanvasDocument) -> (message: (WsMessage, Session))
    requires
        crate::counters::GCounter::readable(doc@.paint_counts),
    ensures
        message.0 matches WsMessage::Snapshot(view) && crate::canvas::view::shows(doc@, view),
        message.1.is_at(doc@),
{
    (WsMessage::Snapshot(CanvasView::from(doc)), Session::at(doc))
}

/// The next message to a client: what changed since it was last updated. There is none where
/// nothing changed. The client is then at the document.
pub fn next_delta(doc: &CanvasDocument, session: &Session) -> (message: Option<
    (WsMessage, Session),
>)
    requires
        crate::counters::GCounter::readable(doc@.paint_counts),
    ensures
        message is None <==> CanvasDocument::vacuous(doc@.change_since(session.version@)),
        message matches Some(message) ==> {
            &&& message.0 matches WsMessage::Delta(view) && crate::canvas::view::shows_change(
                doc@,
                session.version@,
                session.palette@,
                view,
            )
            &&& message.1.is_at(doc@)
        },
{
    match session.change(doc) {
        None => None,
        Some(view) => Some((WsMessage::Delta(view), Session::at(doc))),
    }
}

/// The texts between the commas of a list, without the empty ones.
pub open spec fn items_of(list: Seq<char>) -> Seq<Seq<char>> {
    split_at_commas(list).filter(|item: Seq<char>| item.len() > 0)
}

/// The texts between the commas of a list.
pub open spec fn split_at_commas(list: Seq<char>) -> Seq<Seq<char>>
    decreases list.len(),
{
    if list.len() == 0 {
        seq![Seq::empty()]
    } else {
        let before = split_at_commas(list.drop_last());
        if list.last() == ',' {
            before.push(Seq::empty())
        } else {
            before.drop_last().push(before.last().push(list.last()))
        }
    }
}

/// The views of the texts.
pub open spec fn texts(list: Seq<String>) -> Seq<Seq<char>> {
    list.map_values(|item: String| item@)
}

/// Splits a comma-separated list of addresses. Empty items are left out.
pub fn split_peers(list: &str) -> (items: Vec<String>)
    ensures
        texts(items@) == items_of(list@),
{
    let count: usize = list.unicode_len();
    let ghost all = list@;
    let ghost keep = |item: Seq<char>| item.len() > 0;
    let mut items: Vec<String> = Vec::new();
    let mut start: usize = 0;
    let mut end: usize = 0;
    proof {
        reveal(Seq::filter);
        assert(all.take(0) =~= Seq::empty());
        assert(split_at_commas(all.take(0)).drop_last() =~= Seq::empty());
        assert(all.subrange(0, 0) =~= Seq::empty());
        assert(texts(items@) =~= Seq::empty());
    }
    while end < count
        invariant
            count == all.len(),
            all == list@,
            keep == (|item: Seq<char>| item.len() > 0),
            start <= end <= count,
            split_at_commas(all.take(end as int)).len() > 0,
            split_at_commas(all.take(end as int)).last() == all.subrange(start as int, end as int),
            texts(items@) == split_at_commas(all.take(end as int)).drop_last().filter(keep),
        decreases count - end,
    {
        let ghost before = split_at_commas(all.take(end as int));
        let ghost taken = texts(items@);
        proof {
            assert(all.take(end + 1).drop_last() =~= all.take(end as int));
            assert(all.take(end + 1).last() == all[end as int]);
        }
        if list.get_char(end) == ',' {
            proof {
                before.drop_last().lemma_filter_push(before.last(), keep);
                assert(before.drop_last().push(before.last()) =~= before);
                assert(before.push(Seq::empty()).drop_last() =~= before);
            }
            if start < end {
                let item = String::from_str(list.substring_char(start, end));
                items.push(item);
                assert(texts(items@) =~= taken.push(all.subrange(start as int, end as int)));
            }
            start = end + 1;
            assert(all.subrange(start as int, end + 1) =~= Seq::empty());
        } else {
            proof {
                let last = before.last().push(all[end as int]);
                assert(all.subrange(start as int, end + 1) =~= last);
                assert(before.drop_last().push(last).drop_last() =~= before.drop_last());
            }
        }
        end = end + 1;
    }
    let ghost whole = split_at_commas(all);
    let ghost taken = texts(items@);
    proof {
        assert(all.take(all.len() as int) =~= all);
        whole.drop_last().lemma_filter_push(whole.last(), keep);
        assert(whole.drop_last().push(whole.last()) =~= whole);
    }
    if start < count {
        let item = String::from_str(list.substring_char(start, count));
        items.push(item);
        assert(texts(items@) =~= taken.push(all.subrange(start as int, count as int)));
    }
    items
}

} // verus!

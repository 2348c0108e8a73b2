//! The composite CRDT that represents the shared canvas state.
//!
//! [`CanvasDocument`] is the single value gossiped between peers. It composes several independent
//! CRDTs, each field handles a different aspect of the shared canvas, and a [`VectorClock`] that
//! ties them together.
//!
//! The clock is the source of the LWW timestamps and of the tag sequence numbers: `increment`
//! returns a value that is strictly greater than any component in the clock, so a write that
//! happens after observing remote state always gets a higher timestamp. It is also the version of
//! the document: every mutation increments it, and each field computes its delta against it.
use super::removals::{date_removal, set_since, Removal};
use crate::clocks::VectorClock;
use crate::collections::{into_elements, map_entries, set_elements};
use crate::counters::GCounter;
use crate::counts::counts_ticked_since;
use crate::maps::lww_map::{compare_registers, merge_registers, merge_rows};
use crate::registers::LWWRegister;
use crate::sets::orset::{ORSet, ORSetDelta, Tag, Tagged, TaggedDelta};
use crate::traits::{Crdt, DeltaCrdt};
use crate::NodeId;
use std::collections::{BTreeMap, BTreeSet};
use vstd::prelude::*;

verus! {

/// RGBA color stored as four `u8` channels: red, green, blue, alpha.
pub type Rgba = (u8, u8, u8, u8);

/// Canvas pixel coordinate. Both axes are bounded to `[0, 255]` by the `u8` type.
pub type PixelCoord = (u8, u8);

/// Color of pixels that have never been painted (opaque white).
pub const DEFAULT_PIXEL: Rgba = (255, 255, 255, 255);

/// The shared state gossiped between peers.
///
/// Every field is a CRDT with its own merge semantics:
/// - `pixels`: per-coordinate [`LWWRegister`], last writer wins.
/// - `users`: [`ORSet`] of active peers, add-wins on concurrent add/remove.
/// - `cursors`: per-user [`LWWRegister`] of cursor position, last writer wins.
/// - `palette`: [`ORSet`] of active palette colors, add-wins.
/// - `paint_counts`: [`GCounter`] tracking total paints per node.
/// - `clock`: [`VectorClock`] tracking causality across all of the above.
///
/// A tombstone and a paint count carry no time of their own. So that a delta can leave out those
/// that the receiver has, the document also keeps when they were made:
/// - `user_removals`, `palette_removals`: the [`Removal`] behind each tombstone of the two sets.
/// - `paint_times`: the time of each node's last paint.
#[derive(Debug)]
pub struct CanvasDocument {
    pub pixels: BTreeMap<PixelCoord, LWWRegister<Rgba>>,
    pub users: ORSet<NodeId>,
    pub cursors: BTreeMap<NodeId, LWWRegister<PixelCoord>>,
    pub palette: ORSet<Rgba>,
    pub paint_counts: GCounter,
    pub clock: VectorClock,
    pub user_removals: BTreeSet<Removal>,
    pub palette_removals: BTreeSet<Removal>,
    pub paint_times: VectorClock,
}

/// The model of a document.
pub struct Canvas {
    pub pixels: Map<PixelCoord, LWWRegister<Rgba>>,
    pub users: Tagged<NodeId>,
    pub cursors: Map<NodeId, LWWRegister<PixelCoord>>,
    pub palette: Tagged<Rgba>,
    pub paint_counts: Map<NodeId, u64>,
    pub clock: Map<NodeId, u64>,
    pub user_removals: Set<Removal>,
    pub palette_removals: Set<Removal>,
    pub paint_times: Map<NodeId, u64>,
}

impl View for CanvasDocument {
    type V = Canvas;

    open spec fn view(&self) -> Canvas {
        Canvas {
            pixels: self.pixels@,
            users: self.users@,
            cursors: self.cursors@,
            palette: self.palette@,
            paint_counts: self.paint_counts@,
            clock: self.clock@,
            user_removals: self.user_removals@,
            palette_removals: self.palette_removals@,
            paint_times: self.paint_times@,
        }
    }
}

impl Clone for CanvasDocument {
    fn clone(&self) -> (copy: Self)
        ensures
            copy@ == self@,
    {
        CanvasDocument {
            pixels: self.pixels.clone(),
            users: self.users.clone(),
            cursors: self.cursors.clone(),
            palette: self.palette.clone(),
            paint_counts: self.paint_counts.clone(),
            clock: self.clock.clone(),
            user_removals: self.user_removals.clone(),
            palette_removals: self.palette_removals.clone(),
            paint_times: self.paint_times.clone(),
        }
    }
}

/// The canvas that nothing was done on.
pub open spec fn blank() -> Canvas {
    Canvas {
        pixels: Map::empty(),
        users: Tagged { active: Map::empty(), removed: Set::empty() },
        cursors: Map::empty(),
        palette: Tagged { active: Map::empty(), removed: Set::empty() },
        paint_counts: Map::empty(),
        clock: Map::empty(),
        user_removals: Set::empty(),
        palette_removals: Set::empty(),
        paint_times: Map::empty(),
    }
}

impl Default for CanvasDocument {
    fn default() -> (doc: Self)
        ensures
            doc@ == blank(),
    {
        CanvasDocument {
            pixels: BTreeMap::new(),
            users: ORSet::new(),
            cursors: BTreeMap::new(),
            palette: ORSet::new(),
            paint_counts: GCounter::new(),
            clock: VectorClock::new(),
            user_removals: BTreeSet::new(),
            palette_removals: BTreeSet::new(),
            paint_times: VectorClock::new(),
        }
    }
}

/// `map` with the write merged in under `key`.
pub open spec fn with_write<K, V: Clone + PartialEq>(
    map: Map<K, LWWRegister<V>>,
    key: K,
    write: LWWRegister<V>,
) -> Map<K, LWWRegister<V>> {
    crate::maps::lww_map::join_registers(map, Map::empty().insert(key, write))
}

impl Canvas {
    /// The color of a pixel; one that was never painted is white.
    pub open spec fn color_at(self, coord: PixelCoord) -> Rgba {
        if self.pixels.contains_key(coord) {
            self.pixels[coord].value
        } else {
            DEFAULT_PIXEL
        }
    }

    /// The time of the next mutation.
    pub open spec fn next_time(self) -> u64 {
        (crate::clocks::latest_time(self.clock) + 1) as u64
    }

    /// The clock after a mutation by `node`.
    pub open spec fn ticked(self, node: NodeId) -> Map<NodeId, u64> {
        self.clock.insert(node, self.next_time())
    }

    /// The canvas after `node` painted a pixel.
    pub open spec fn painted(self, coord: PixelCoord, color: Rgba, node: NodeId) -> Canvas {
        Canvas {
            clock: self.ticked(node),
            pixels: with_write(
                self.pixels,
                coord,
                LWWRegister { value: color, timestamp: self.next_time(), node_id: node },
            ),
            paint_counts: self.paint_counts.insert(
                node,
                (crate::counts::count(self.paint_counts, node) + 1) as u64,
            ),
            paint_times: self.paint_times.insert(node, self.next_time()),
            ..self
        }
    }

    /// The canvas after `node` registered a user.
    pub open spec fn joined(self, user: NodeId, node: NodeId) -> Canvas {
        Canvas {
            clock: self.ticked(node),
            users: self.users.inserted(user, (node, self.next_time())),
            ..self
        }
    }

    /// The canvas after `node` removed a user.
    pub open spec fn left(self, user: NodeId, node: NodeId) -> Canvas {
        Canvas {
            clock: self.ticked(node),
            users: self.users.without(user),
            user_removals: self.user_removals.union(
                super::removals::removals_of(self.users, user, (node, self.next_time())),
            ),
            cursors: self.cursors.remove(user),
            ..self
        }
    }

    /// The canvas after `node` dropped a cursor.
    pub open spec fn cursor_dropped(self, user: NodeId, node: NodeId) -> Canvas {
        Canvas { clock: self.ticked(node), cursors: self.cursors.remove(user), ..self }
    }

    /// The canvas after `node` added a color to the palette.
    pub open spec fn color_added(self, color: Rgba, node: NodeId) -> Canvas {
        Canvas {
            clock: self.ticked(node),
            palette: self.palette.inserted(color, (node, self.next_time())),
            ..self
        }
    }

    /// The canvas after `node` removed a color from the palette.
    pub open spec fn color_removed(self, color: Rgba, node: NodeId) -> Canvas {
        Canvas {
            clock: self.ticked(node),
            palette: self.palette.without(color),
            palette_removals: self.palette_removals.union(
                super::removals::removals_of(self.palette, color, (node, self.next_time())),
            ),
            ..self
        }
    }

    /// The canvas after `node` moved a cursor.
    pub open spec fn cursor_moved(self, user: NodeId, to: PixelCoord, node: NodeId) -> Canvas {
        Canvas {
            clock: self.ticked(node),
            cursors: with_write(
                self.cursors,
                user,
                LWWRegister { value: to, timestamp: self.next_time(), node_id: node },
            ),
            ..self
        }
    }
}

/// Color `a` stands before color `b`, channel by channel.
pub open spec fn color_before(a: Rgba, b: Rgba) -> bool {
    a.0 < b.0 || (a.0 == b.0 && (a.1 < b.1 || (a.1 == b.1 && (a.2 < b.2 || (a.2 == b.2 && a.3
        < b.3)))))
}

/// Increasing colors are increasing channel by channel.
proof fn increasing_colors(colors: Seq<Rgba>)
    requires
        vstd::std_specs::btree::increasing_seq(colors),
    ensures
        forall|i: int, j: int|
            #![trigger colors[i], colors[j]]
            0 <= i < j < colors.len() ==> color_before(colors[i], colors[j]),
{
    assert forall|i: int, j: int|
        #![trigger colors[i], colors[j]]
        0 <= i < j < colors.len() implies color_before(colors[i], colors[j]) by {
        assert(vstd::std_specs::cmp::OrdSpec::cmp_spec(&colors[i], &colors[j]) is Less);
    }
}

/// Merges the write into the register under `key`.
fn write_register<K: Ord, V: Clone + PartialEq>(
    map: &mut BTreeMap<K, LWWRegister<V>>,
    key: K,
    value: V,
    timestamp: u64,
    node_id: NodeId,
)
    ensures
        crate::collections::lawful_key::<K>() ==> final(map)@ == with_write(
            old(map)@,
            key,
            (LWWRegister { value, timestamp, node_id }),
        ),
{
    crate::maps::lww_map::merge_register(map, key, LWWRegister::new(value, timestamp, node_id));
}

impl CanvasDocument {
    /// Create an empty canvas with no pixels, users, palette entries, or paint counts.
    pub fn new() -> (doc: Self)
        ensures
            doc@ == blank(),
    {
        Self::default()
    }

    /// Set a pixel's color.
    ///
    /// Increments the document clock and uses the resulting timestamp for the LWW register,
    /// ensuring this write beats any previously observed state.
    pub fn paint(&mut self, x: u8, y: u8, color: Rgba, node_id: NodeId)
        requires
            crate::clocks::can_tick(old(self)@.clock),
            crate::counts::count(old(self)@.paint_counts, node_id) < u64::MAX,
        ensures
            final(self)@ == old(self)@.painted((x, y), color, node_id),
    {
        let ts: u64 = self.clock.increment(node_id);
        write_register(&mut self.pixels, (x, y), color, ts, node_id);
        self.paint_counts.increment(node_id);
        self.paint_times.clock.insert(node_id, ts);
    }

    /// Register a peer as active. Uses ORSet add-wins semantics.
    pub fn add_user(&mut self, user: NodeId, node_id: &NodeId)
        requires
            crate::clocks::can_tick(old(self)@.clock),
        ensures
            final(self)@ == old(self)@.joined(user, *node_id),
    {
        let seq: u64 = self.clock.increment(*node_id);
        self.users.insert(user, node_id, seq);
    }

    /// Remove a peer from the active set and evict their cursor. Returns whether the peer was
    /// active.
    ///
    /// Increments the clock so the removal shows up as a new document version, and dates it with
    /// the time, so that a delta to who has not seen that version carries it.
    pub fn remove_user(&mut self, user: &NodeId, node_id: NodeId) -> (was_active: bool)
        requires
            crate::clocks::can_tick(old(self)@.clock),
        ensures
            was_active == old(self)@.users.elements().contains(*user),
            final(self)@ == old(self)@.left(*user, node_id),
    {
        let ts: u64 = self.clock.increment(node_id);
        self.cursors.remove(user);
        date_removal(&mut self.user_removals, &self.users, user, (node_id, ts));
        self.users.remove(user)
    }

    /// Returns the set of currently active peers.
    pub fn active_users(&self) -> (users: BTreeSet<NodeId>)
        ensures
            users@ == self@.users.elements(),
    {
        self.users.value()
    }

    /// Remove a cursor entry for a browser session that has disconnected.
    ///
    /// Increments the clock so the removal is visible as a new document version.
    pub fn remove_cursor_entry(&mut self, user: &NodeId, node_id: NodeId)
        requires
            crate::clocks::can_tick(old(self)@.clock),
        ensures
            final(self)@ == old(self)@.cursor_dropped(*user, node_id),
    {
        self.clock.increment(node_id);
        self.cursors.remove(user);
    }

    /// Add `color` to the shared palette using ORSet add-wins semantics.
    pub fn add_palette_color(&mut self, color: Rgba, node_id: &NodeId)
        requires
            crate::clocks::can_tick(old(self)@.clock),
        ensures
            final(self)@ == old(self)@.color_added(color, *node_id),
    {
        let seq: u64 = self.clock.increment(*node_id);
        self.palette.insert(color, node_id, seq);
    }

    /// Remove `color` from the shared palette. Returns `true` if the color was present.
    ///
    /// Increments the clock so the removal is visible as a new document version, and dates it with
    /// the time, so that a delta to who has not seen that version carries it.
    pub fn remove_palette_color(&mut self, color: &Rgba, node_id: NodeId) -> (was_present: bool)
        requires
            crate::clocks::can_tick(old(self)@.clock),
        ensures
            was_present == old(self)@.palette.elements().contains(*color),
            final(self)@ == old(self)@.color_removed(*color, node_id),
    {
        let ts: u64 = self.clock.increment(node_id);
        date_removal(&mut self.palette_removals, &self.palette, color, (node_id, ts));
        self.palette.remove(color)
    }

    /// Returns palette colors sorted for deterministic display order.
    pub fn palette_colors(&self) -> (colors: Vec<Rgba>)
        ensures
            crate::collections::lists_set(colors@, self@.palette.elements()),
            forall|i: int, j: int|
                #![trigger colors@[i], colors@[j]]
                0 <= i < j < colors@.len() ==> color_before(colors@[i], colors@[j]),
    {
        let set = self.palette.value();
        let rows = set_elements(&set);
        let ghost listed = rows@.unref();
        let mut colors: Vec<Rgba> = Vec::new();
        for i in 0..rows.len()
            invariant
                listed == rows@.unref(),
                colors@ == listed.take(i as int),
        {
            colors.push(*rows[i]);
            assert(colors@ =~= listed.take(i + 1));
        }
        assert(colors@ =~= listed);
        proof {
            increasing_colors(colors@);
        }
        colors
    }

    /// Returns `(node_id, pixel_count)` pairs sorted descending by pixel ownership.
    pub fn ownership_leaderboard(&self) -> (board: Vec<(NodeId, u64)>)
        ensures
            super::leaderboard::is_leaderboard(self@.pixels, board@),
    {
        super::leaderboard::leaderboard(&self.pixels)
    }

    /// Update a peer's cursor position.
    pub fn update_cursor(&mut self, user: NodeId, x: u8, y: u8, node_id: NodeId)
        requires
            crate::clocks::can_tick(old(self)@.clock),
        ensures
            final(self)@ == old(self)@.cursor_moved(user, (x, y), node_id),
    {
        let ts: u64 = self.clock.increment(node_id);
        write_register(&mut self.cursors, user, (x, y), ts, node_id);
    }
}

/// Delta payload for a [`CanvasDocument`].
///
/// Each field carries the corresponding CRDT's delta, empty when nothing changed there.
#[derive(Debug)]
pub struct CanvasDelta {
    /// VectorClock entries that advanced. Receivers absorb this into their own clock so
    /// subsequent local writes carry strictly higher timestamps.
    pub clock: VectorClock,
    /// Pixels whose timestamp exceeds the receiver's view for the writing node.
    pub pixels: Vec<(PixelCoord, LWWRegister<Rgba>)>,
    /// Delta for the active-user set: the new adds, and the tombstones of `user_removals`.
    pub users: ORSetDelta<NodeId>,
    /// Cursors that moved.
    pub cursors: Vec<(NodeId, LWWRegister<PixelCoord>)>,
    /// Delta for the palette: the new adds, and the tombstones of `palette_removals`.
    pub palette: ORSetDelta<Rgba>,
    /// Paint counts of the nodes that painted.
    pub paint_counts: BTreeMap<NodeId, u64>,
    /// The new removals of users.
    pub user_removals: BTreeSet<Removal>,
    /// The new removals of colors.
    pub palette_removals: BTreeSet<Removal>,
    /// The times of the last paint of the nodes that painted.
    pub paint_times: VectorClock,
}

/// The model of a delta.
pub struct Change {
    pub clock: Map<NodeId, u64>,
    pub pixels: Map<PixelCoord, LWWRegister<Rgba>>,
    pub users: TaggedDelta<NodeId>,
    pub cursors: Map<NodeId, LWWRegister<PixelCoord>>,
    pub palette: TaggedDelta<Rgba>,
    pub paint_counts: Map<NodeId, u64>,
    pub user_removals: Set<Removal>,
    pub palette_removals: Set<Removal>,
    pub paint_times: Map<NodeId, u64>,
}

impl View for CanvasDelta {
    type V = Change;

    open spec fn view(&self) -> Change {
        Change {
            clock: self.clock@,
            pixels: crate::maps::lww_map::collapse(self.pixels@),
            users: self.users@,
            cursors: crate::maps::lww_map::collapse(self.cursors@),
            palette: self.palette@,
            paint_counts: self.paint_counts@,
            user_removals: self.user_removals@,
            palette_removals: self.palette_removals@,
            paint_times: self.paint_times@,
        }
    }
}

/// A copy of the adds.
fn copy_adds<T: Ord + Copy>(delta: &ORSetDelta<T>) -> (copy: ORSetDelta<T>)
    ensures
        copy@ == delta@,
{
    let mut adds: Vec<(T, Tag)> = Vec::new();
    for i in 0..delta.adds.len()
        invariant
            adds@ == delta.adds@.take(i as int),
    {
        adds.push((delta.adds[i].0, delta.adds[i].1));
        assert(adds@ =~= delta.adds@.take(i + 1));
    }
    assert(delta.adds@.take(delta.adds@.len() as int) =~= delta.adds@);
    ORSetDelta { adds, removed_tags: delta.removed_tags.clone() }
}

/// A copy of the rows.
fn copy_rows<K: Copy, V: Copy>(rows: &Vec<(K, LWWRegister<V>)>) -> (copy: Vec<(K, LWWRegister<V>)>)
    ensures
        copy@ == rows@,
{
    let mut copy: Vec<(K, LWWRegister<V>)> = Vec::new();
    for i in 0..rows.len()
        invariant
            copy@ == rows@.take(i as int),
    {
        copy.push((rows[i].0, copy_register(&rows[i].1)));
        assert(copy@ =~= rows@.take(i + 1));
    }
    assert(rows@.take(rows@.len() as int) =~= rows@);
    copy
}

/// A copy of the register.
fn copy_register<V: Copy>(register: &LWWRegister<V>) -> (copy: LWWRegister<V>)
    ensures
        copy == *register,
{
    LWWRegister {
        value: register.value,
        timestamp: register.timestamp,
        node_id: register.node_id,
    }
}

impl Clone for CanvasDelta {
    fn clone(&self) -> (copy: Self)
        ensures
            copy@ == self@,
    {
        CanvasDelta {
            clock: self.clock.clone(),
            pixels: copy_rows(&self.pixels),
            users: copy_adds(&self.users),
            cursors: copy_rows(&self.cursors),
            palette: copy_adds(&self.palette),
            paint_counts: self.paint_counts.clone(),
            user_removals: self.user_removals.clone(),
            palette_removals: self.palette_removals.clone(),
            paint_times: self.paint_times.clone(),
        }
    }
}

/// Every register was written at a time after zero, and none later than `clock` has seen of its
/// node.
pub open spec fn stamped_within<K, V>(
    map: Map<K, LWWRegister<V>>,
    clock: Map<NodeId, u64>,
) -> bool {
    forall|key: K| #[trigger]
        map.contains_key(key) ==> 0 < map[key].timestamp <= crate::counts::count(
            clock,
            map[key].node_id,
        )
}

/// The registers that were written after `since`.
pub open spec fn written_since<K, V>(
    map: Map<K, LWWRegister<V>>,
    since: Map<NodeId, u64>,
) -> Map<K, LWWRegister<V>> {
    Map::new(
        |key: K|
            map.contains_key(key) && map[key].timestamp > crate::counts::count(
                since,
                map[key].node_id,
            ),
        |key: K| map[key],
    )
}

/// Each register that `since` covers is part of the one that `receiver` has under its key.
pub open spec fn registers_bridged<K, V: Clone + PartialEq>(
    sender: Map<K, LWWRegister<V>>,
    since: Map<NodeId, u64>,
    receiver: Map<K, LWWRegister<V>>,
) -> bool {
    forall|key: K| #[trigger]
        sender.contains_key(key) && sender[key].timestamp <= crate::counts::count(
            since,
            sender[key].node_id,
        ) ==> receiver.contains_key(key) && LWWRegister::below(sender[key], receiver[key])
}

/// Where `since` covers the last paint that the sender knows of a node, the receiver knows of no
/// fewer paints, and of none less recent.
pub open spec fn counts_bridged(
    sender: Canvas,
    since: Map<NodeId, u64>,
    receiver: Canvas,
) -> bool {
    forall|node: NodeId|
        #![trigger crate::counts::count(sender.paint_counts, node)]
        #![trigger crate::counts::count(sender.paint_times, node)]
        crate::counts::count(sender.paint_times, node) <= crate::counts::count(since, node) ==> {
            &&& crate::counts::count(sender.paint_counts, node) <= crate::counts::count(
                receiver.paint_counts,
                node,
            )
            &&& crate::counts::count(sender.paint_times, node) <= crate::counts::count(
                receiver.paint_times,
                node,
            )
        }
}

impl Canvas {
    /// The user was active on one of the two canvases and is not active on their merge.
    pub open spec fn departs(self, other: Canvas, user: NodeId) -> bool {
        &&& self.users.elements().contains(user) || other.users.elements().contains(user)
        &&& !ORSet::<NodeId>::join(self.users, other.users).elements().contains(user)
    }

    /// The users that depart when the two canvases are merged.
    pub open spec fn departures(self, other: Canvas) -> Set<NodeId> {
        Set::new(|user: NodeId| self.departs(other, user))
    }

    /// None of the users has a cursor here.
    pub open spec fn has_no_cursor_of(self, users: Set<NodeId>) -> bool {
        forall|user: NodeId| #[trigger] users.contains(user) ==> !self.cursors.contains_key(user)
    }

    /// The merge of two canvases, field by field; the cursors of users that are no longer active
    /// are dropped.
    pub open spec fn merged(self, other: Canvas) -> Canvas {
        Canvas {
            clock: VectorClock::join(self.clock, other.clock),
            pixels: crate::maps::lww_map::join_registers(self.pixels, other.pixels),
            users: ORSet::<NodeId>::join(self.users, other.users),
            cursors: crate::maps::lww_map::join_registers(
                self.cursors,
                other.cursors,
            ).remove_keys(self.departures(other)),
            palette: ORSet::<Rgba>::join(self.palette, other.palette),
            paint_counts: GCounter::join(self.paint_counts, other.paint_counts),
            user_removals: self.user_removals.union(other.user_removals),
            palette_removals: self.palette_removals.union(other.palette_removals),
            paint_times: VectorClock::join(self.paint_times, other.paint_times),
        }
    }

    /// What the canvas has beyond the version `since`.
    pub open spec fn change_since(self, since: Map<NodeId, u64>) -> Change {
        Change {
            clock: crate::counts::counts_beyond(self.clock, since),
            pixels: written_since(self.pixels, since),
            users: super::removals::part_since(self.users, self.user_removals, since),
            cursors: written_since(self.cursors, since),
            palette: super::removals::part_since(self.palette, self.palette_removals, since),
            paint_counts: crate::counts::counts_ticked(
                self.paint_counts,
                self.paint_times,
                since,
            ),
            user_removals: super::removals::removals_beyond(self.user_removals, since),
            palette_removals: super::removals::removals_beyond(self.palette_removals, since),
            paint_times: crate::counts::counts_beyond(self.paint_times, since),
        }
    }

    /// The canvas after a change.
    pub open spec fn changed(self, change: Change) -> Canvas {
        Canvas {
            clock: VectorClock::absorb(self.clock, change.clock),
            pixels: crate::maps::lww_map::join_registers(self.pixels, change.pixels),
            users: self.users.absorbed(change.users),
            cursors: crate::maps::lww_map::join_registers(self.cursors, change.cursors),
            palette: self.palette.absorbed(change.palette),
            paint_counts: GCounter::absorb(self.paint_counts, change.paint_counts),
            user_removals: self.user_removals.union(change.user_removals),
            palette_removals: self.palette_removals.union(change.palette_removals),
            paint_times: VectorClock::absorb(self.paint_times, change.paint_times),
        }
    }
}

/// Drops the cursors of the users in `before` that are not active any more.
fn evict_departed(
    cursors: &mut BTreeMap<NodeId, LWWRegister<PixelCoord>>,
    before: BTreeSet<NodeId>,
    users: &ORSet<NodeId>,
)
    ensures
        final(cursors)@ == old(cursors)@.remove_keys(
            Set::new(
                |user: NodeId| before@.contains(user) && !users@.elements().contains(user),
            ),
        ),
{
    let ghost start = cursors@;
    let ghost all = before@;
    let rows = into_elements(before);
    for user in iter: rows
        invariant
            crate::collections::lists_set(iter.seq(), all),
            forall|u: NodeId| #[trigger]
                cursors@.contains_key(u) <==> start.contains_key(u) && !(exists|j: int|
                    0 <= j < iter.index() && #[trigger] iter.seq()[j] == u
                        && !users@.elements().contains(u)),
            forall|u: NodeId| #[trigger] cursors@.contains_key(u) ==> cursors@[u] == start[u],
    {
        if !users.contains(&user) {
            cursors.remove(&user);
        }
    }
    assert(cursors@ =~= start.remove_keys(
        Set::new(|user: NodeId| all.contains(user) && !users@.elements().contains(user)),
    ));
}

impl Crdt for CanvasDocument {
    type Value = CanvasDocument;

    open spec fn lawful() -> bool {
        true
    }

    open spec fn same(a: Canvas, b: Canvas) -> bool {
        &&& a.pixels == b.pixels
        &&& a.users == b.users
        &&& a.cursors == b.cursors
        &&& a.palette == b.palette
        &&& crate::counts::same_counts(a.paint_counts, b.paint_counts)
        &&& crate::counts::same_counts(a.clock, b.clock)
        &&& a.user_removals == b.user_removals
        &&& a.palette_removals == b.palette_removals
        &&& crate::counts::same_counts(a.paint_times, b.paint_times)
    }

    open spec fn join(a: Canvas, b: Canvas) -> Canvas {
        a.merged(b)
    }

    open spec fn below(a: Canvas, b: Canvas) -> bool {
        &&& VectorClock::below(a.clock, b.clock)
        &&& crate::maps::lww_map::registers_below(a.pixels, b.pixels)
        &&& ORSet::<NodeId>::below(a.users, b.users)
        &&& crate::maps::lww_map::registers_below(a.cursors, b.cursors)
        &&& ORSet::<Rgba>::below(a.palette, b.palette)
        &&& GCounter::below(a.paint_counts, b.paint_counts)
        &&& a.user_removals.subset_of(b.user_removals)
        &&& a.palette_removals.subset_of(b.palette_removals)
        &&& VectorClock::below(a.paint_times, b.paint_times)
    }

    /// The clock has seen every write, every add, every removal and every paint, and each node has
    /// painted no more often than by the time of its last paint. The sets are settled, and each of
    /// their tombstones is dated.
    open spec fn valid(a: Canvas) -> bool {
        &&& stamped_within(a.pixels, a.clock)
        &&& stamped_within(a.cursors, a.clock)
        &&& super::removals::active_within(a.users, a.clock)
        &&& super::removals::active_within(a.palette, a.clock)
        &&& super::removals::removals_within(a.user_removals, a.clock)
        &&& super::removals::removals_within(a.palette_removals, a.clock)
        &&& crate::counts::dominates(a.clock, a.paint_times)
        &&& crate::counts::dominates(a.paint_times, a.paint_counts)
        &&& a.users.removed == super::removals::removed_tags(a.user_removals)
        &&& a.palette.removed == super::removals::removed_tags(a.palette_removals)
        &&& a.users.is_settled()
        &&& a.palette.is_settled()
    }

    open spec fn agree(a: Canvas, b: Canvas) -> bool {
        &&& crate::maps::lww_map::registers_agree(a.pixels, b.pixels)
        &&& crate::maps::lww_map::registers_agree(a.cursors, b.cursors)
    }

    /// No active user or color of `a` is removed in `b`, and no cursor of `a` is of a user that
    /// departs.
    open spec fn survives(a: Canvas, b: Canvas) -> bool {
        &&& ORSet::<NodeId>::survives(a.users, b.users)
        &&& ORSet::<Rgba>::survives(a.palette, b.palette)
        &&& a.has_no_cursor_of(a.departures(b))
    }

    /// No cursor is held of a user that departs.
    open spec fn adds_only(a: Canvas, b: Canvas) -> bool {
        a.has_no_cursor_of(a.departures(b)) && b.has_no_cursor_of(a.departures(b))
    }

    /// No cursor is held of a user that departs in one of the inner merges.
    open spec fn regroupable(a: Canvas, b: Canvas, c: Canvas) -> bool {
        let gone = a.departures(b).union(b.departures(c));
        a.has_no_cursor_of(gone) && b.has_no_cursor_of(gone) && c.has_no_cursor_of(gone)
    }

    open spec fn readable(a: Canvas) -> bool {
        true
    }

    open spec fn reads(a: Canvas, value: CanvasDocument) -> bool {
        value@ == a
    }

    fn replica(&self) -> (copy: Self) {
        self.clone()
    }

    /// The document is its own value: clones the full state.
    fn value(&self) -> (value: CanvasDocument) {
        self.clone()
    }

    /// Merge `other` into `self` using each field's own CRDT merge rule.
    ///
    /// - Clock: element-wise max (Lamport rule per node).
    /// - Pixels / cursors: LWW, higher timestamp wins per coordinate.
    /// - Users / palette: ORSet, add-wins on concurrent add/remove.
    /// - Paint counts: GCounter, per-node max; so are the times of the last paints.
    /// - Removals: union.
    ///
    /// Cursor entries for peers no longer in the active user set are evicted. The cursor map has
    /// no tombstones, so without this a departed peer's cursor would persist on remote nodes
    /// indefinitely.
    fn merge(&mut self, other: Self) {
        let ghost mine = self@;
        let ghost theirs = other@;
        let mut before = self.users.value();
        crate::collections::add_all(&mut before, other.users.value());
        self.clock.merge(other.clock);
        merge_registers(&mut self.pixels, other.pixels);
        self.users.merge(other.users);
        merge_registers(&mut self.cursors, other.cursors);
        evict_departed(&mut self.cursors, before, &self.users);
        self.palette.merge(other.palette);
        self.paint_counts.merge(other.paint_counts);
        crate::collections::add_all(&mut self.user_removals, other.user_removals);
        crate::collections::add_all(&mut self.palette_removals, other.palette_removals);
        self.paint_times.merge(other.paint_times);
        assert(self@.cursors =~= mine.merged(theirs).cursors);
    }

    /// Returns `true` when `self` is causally dominated by `other` across all fields.
    fn compare(&self, other: &Self) -> (included: bool) {
        self.clock.compare(&other.clock) && compare_registers(&self.pixels, &other.pixels)
            && self.users.compare(&other.users) && compare_registers(&self.cursors, &other.cursors)
            && self.palette.compare(&other.palette) && self.paint_counts.compare(
            &other.paint_counts,
        ) && crate::collections::is_subset(&self.user_removals, &other.user_removals)
            && crate::collections::is_subset(&self.palette_removals, &other.palette_removals)
            && self.paint_times.compare(&other.paint_times)
    }

    proof fn merge_commutative(a: Canvas, b: Canvas) {
        VectorClock::merge_commutative(a.clock, b.clock);
        crate::maps::lww_map::registers_commute(a.pixels, b.pixels);
        crate::maps::lww_map::registers_commute(a.cursors, b.cursors);
        ORSet::<NodeId>::merge_commutative(a.users, b.users);
        ORSet::<Rgba>::merge_commutative(a.palette, b.palette);
        GCounter::merge_commutative(a.paint_counts, b.paint_counts);
        VectorClock::merge_commutative(a.paint_times, b.paint_times);
        assert(a.user_removals.union(b.user_removals) =~= b.user_removals.union(a.user_removals));
        assert(a.palette_removals.union(b.palette_removals) =~= b.palette_removals.union(
            a.palette_removals,
        ));
        assert(a.departures(b) =~= b.departures(a));
    }

    proof fn merge_associative(a: Canvas, b: Canvas, c: Canvas) {
        VectorClock::merge_associative(a.clock, b.clock, c.clock);
        crate::maps::lww_map::registers_associate(a.pixels, b.pixels, c.pixels);
        crate::maps::lww_map::registers_associate(a.cursors, b.cursors, c.cursors);
        ORSet::<NodeId>::merge_associative(a.users, b.users, c.users);
        ORSet::<Rgba>::merge_associative(a.palette, b.palette, c.palette);
        GCounter::merge_associative(a.paint_counts, b.paint_counts, c.paint_counts);
        VectorClock::merge_associative(a.paint_times, b.paint_times, c.paint_times);
        assert(a.merged(b).merged(c).user_removals =~= a.merged(b.merged(c)).user_removals);
        assert(a.merged(b).merged(c).palette_removals =~= a.merged(b.merged(c)).palette_removals);
        let ab = a.merged(b);
        let bc = b.merged(c);
        let gone = a.departures(b).union(b.departures(c));
        assert forall|user: NodeId| a.departs(b, user) || b.departs(c, user) implies gone.contains(
            user,
        ) by {}
        active_after_merge(a, b);
        active_after_merge(b, c);
        assert forall|user: NodeId|
            (a.cursors.contains_key(user) || b.cursors.contains_key(user) || c.cursors.contains_key(
                user,
            )) implies (ab.departs(c, user) <==> a.departs(bc, user)) by {
            assert(!gone.contains(user));
        }
        assert(ab.cursors =~= crate::maps::lww_map::join_registers(a.cursors, b.cursors)) by {
            assert forall|user: NodeId|
                a.cursors.contains_key(user) || b.cursors.contains_key(user) implies !a.departures(
                b,
            ).contains(user) by {
                assert(!gone.contains(user));
            }
        }
        assert(bc.cursors =~= crate::maps::lww_map::join_registers(b.cursors, c.cursors)) by {
            assert forall|user: NodeId|
                b.cursors.contains_key(user) || c.cursors.contains_key(user) implies !b.departures(
                c,
            ).contains(user) by {
                assert(!gone.contains(user));
            }
        }
        let all = crate::maps::lww_map::join_registers(ab.cursors, c.cursors);
        assert(all == crate::maps::lww_map::join_registers(a.cursors, bc.cursors));
        assert forall|user: NodeId| all.contains_key(user) implies (ab.departures(c).contains(user)
            <==> a.departures(bc).contains(user)) by {}
        assert(all.remove_keys(ab.departures(c)) =~= all.remove_keys(a.departures(bc)));
    }

    proof fn merge_idempotent(a: Canvas) {
        VectorClock::merge_idempotent(a.clock);
        crate::maps::lww_map::registers_repeat(a.pixels);
        crate::maps::lww_map::registers_repeat(a.cursors);
        ORSet::<NodeId>::merge_idempotent(a.users);
        ORSet::<Rgba>::merge_idempotent(a.palette);
        GCounter::merge_idempotent(a.paint_counts);
        VectorClock::merge_idempotent(a.paint_times);
        assert(a.merged(a).user_removals =~= a.user_removals);
        assert(a.merged(a).palette_removals =~= a.palette_removals);
        assert(a.merged(a).cursors =~= a.cursors);
    }

    proof fn merge_keeps_valid(a: Canvas, b: Canvas) {
        let joined = a.merged(b);
        crate::counts::join_dominates(a.clock, b.clock);
        ORSet::<NodeId>::merge_keeps_valid(a.users, b.users);
        ORSet::<Rgba>::merge_keeps_valid(a.palette, b.palette);
        merged_registers_within(a.pixels, b.pixels, a.clock, b.clock);
        merged_registers_within(a.cursors, b.cursors, a.clock, b.clock);
        merged_adds_within(a.users, b.users, a.clock, b.clock);
        merged_adds_within(a.palette, b.palette, a.clock, b.clock);
        super::removals::removed_tags_join(a.user_removals, b.user_removals);
        super::removals::removed_tags_join(a.palette_removals, b.palette_removals);
        joined_removals_within(a.user_removals, b.user_removals, a.clock, b.clock);
        joined_removals_within(a.palette_removals, b.palette_removals, a.clock, b.clock);
        joined_dominates(a.clock, b.clock, a.paint_times, b.paint_times);
        joined_dominates(a.paint_times, b.paint_times, a.paint_counts, b.paint_counts);
        assert forall|user: NodeId| #[trigger] joined.cursors.contains_key(user) implies
            0 < joined.cursors[user].timestamp
            <= crate::counts::count(joined.clock, joined.cursors[user].node_id) by {
            assert(crate::maps::lww_map::join_registers(a.cursors, b.cursors).contains_key(user));
        }
    }

    proof fn merge_includes(a: Canvas, b: Canvas) {
        VectorClock::merge_includes(a.clock, b.clock);
        ORSet::<NodeId>::merge_includes(a.users, b.users);
        ORSet::<Rgba>::merge_includes(a.palette, b.palette);
        GCounter::merge_includes(a.paint_counts, b.paint_counts);
        VectorClock::merge_includes(a.paint_times, b.paint_times);
        departures_are_mutual(a, b);
        assert forall|user: NodeId| a.cursors.contains_key(user) implies !a.departures(b).contains(
            user,
        ) by {}
    }

    proof fn compare_reflexive(a: Canvas) {
    }

    proof fn compare_transitive(a: Canvas, b: Canvas, c: Canvas) {
        crate::counts::dominates_transitive(c.clock, b.clock, a.clock);
        crate::counts::dominates_transitive(c.paint_counts, b.paint_counts, a.paint_counts);
        crate::counts::dominates_transitive(c.paint_times, b.paint_times, a.paint_times);
        ORSet::<NodeId>::compare_transitive(a.users, b.users, c.users);
        ORSet::<Rgba>::compare_transitive(a.palette, b.palette, c.palette);
        assert forall|coord: PixelCoord| #[trigger] a.pixels.contains_key(coord) implies
            c.pixels.contains_key(coord)
            && LWWRegister::below(a.pixels[coord], c.pixels[coord]) by {
            assert(b.pixels.contains_key(coord));
        }
        assert forall|user: NodeId| #[trigger] a.cursors.contains_key(user) implies
            c.cursors.contains_key(user)
            && LWWRegister::below(a.cursors[user], c.cursors[user]) by {
            assert(b.cursors.contains_key(user));
        }
    }

    proof fn compare_means_included(a: Canvas, b: Canvas) {
        VectorClock::compare_means_included(a.clock, b.clock);
        crate::maps::lww_map::registers_included(a.pixels, b.pixels);
        crate::maps::lww_map::registers_included(a.cursors, b.cursors);
        ORSet::<NodeId>::compare_means_included(a.users, b.users);
        ORSet::<Rgba>::compare_means_included(a.palette, b.palette);
        GCounter::compare_means_included(a.paint_counts, b.paint_counts);
        VectorClock::compare_means_included(a.paint_times, b.paint_times);
        assert(a.merged(b).user_removals =~= b.user_removals);
        assert(a.merged(b).palette_removals =~= b.palette_removals);
        assert forall|user: NodeId| b.cursors.contains_key(user) implies !a.departures(b).contains(
            user,
        ) by {}
        assert(a.merged(b).cursors =~= b.cursors);
    }
}

/// The same users depart whichever canvas is merged into the other.
pub proof fn departures_are_mutual(a: Canvas, b: Canvas)
    ensures
        a.departures(b) == b.departures(a),
{
    ORSet::<NodeId>::merge_commutative(a.users, b.users);
    assert(a.departures(b) =~= b.departures(a));
}

/// Who is active after a merge was active before it.
proof fn active_after_merge(a: Canvas, b: Canvas)
    ensures
        forall|user: NodeId| #[trigger]
            a.merged(b).users.elements().contains(user) ==> a.users.elements().contains(user)
                || b.users.elements().contains(user),
{
    crate::sets::orset::absorbed_has(a.users, b.users.everything());
    let joined = a.merged(b).users;
    assert forall|user: NodeId| #[trigger] joined.elements().contains(user) implies
        a.users.elements().contains(user)
        || b.users.elements().contains(user) by {
        assert(joined.active.contains_key(user));
        let tag = choose|tag: Tag| #[trigger] joined.has(user, tag);
        assert(a.users.has(user, tag) || b.users.has(user, tag));
    }
}

pub proof fn merged_registers_within<K, V: Clone + PartialEq>(
    a: Map<K, LWWRegister<V>>,
    b: Map<K, LWWRegister<V>>,
    a_clock: Map<NodeId, u64>,
    b_clock: Map<NodeId, u64>,
)
    requires
        stamped_within(a, a_clock),
        stamped_within(b, b_clock),
    ensures
        stamped_within(
            crate::maps::lww_map::join_registers(a, b),
            crate::counts::join_counts(a_clock, b_clock),
        ),
{
    let joined = crate::maps::lww_map::join_registers(a, b);
    let clock = crate::counts::join_counts(a_clock, b_clock);
    assert forall|key: K| #[trigger] joined.contains_key(key) implies 0 < joined[key].timestamp
        <= crate::counts::count(clock, joined[key].node_id) by {
        let node = joined[key].node_id;
        assert(crate::counts::count(clock, node) >= crate::counts::count(a_clock, node));
        assert(crate::counts::count(clock, node) >= crate::counts::count(b_clock, node));
        assert(a.contains_key(key) || b.contains_key(key));
    }
}

proof fn absorbed_adds_within<T>(
    a: Tagged<T>,
    d: TaggedDelta<T>,
    a_clock: Map<NodeId, u64>,
    d_clock: Map<NodeId, u64>,
)
    requires
        super::removals::active_within(a, a_clock),
        super::removals::adds_within(d.adds, d_clock),
    ensures
        super::removals::active_within(
            a.absorbed(d),
            crate::counts::join_counts(a_clock, d_clock),
        ),
{
    let after = a.absorbed(d);
    let clock = crate::counts::join_counts(a_clock, d_clock);
    crate::sets::orset::absorbed_has(a, d);
    assert forall|element: T, tag: Tag| #[trigger] after.has(element, tag) implies 0 < tag.1
        <= crate::counts::count(clock, tag.0) by {
        assert(crate::counts::count(clock, tag.0) >= crate::counts::count(a_clock, tag.0));
        assert(crate::counts::count(clock, tag.0) >= crate::counts::count(d_clock, tag.0));
        if !a.has(element, tag) {
            assert(d.adds.contains((element, tag)));
        }
    }
}

proof fn merged_adds_within<T: Ord + Clone>(
    a: Tagged<T>,
    b: Tagged<T>,
    a_clock: Map<NodeId, u64>,
    b_clock: Map<NodeId, u64>,
)
    requires
        super::removals::active_within(a, a_clock),
        super::removals::active_within(b, b_clock),
    ensures
        super::removals::active_within(
            ORSet::<T>::join(a, b),
            crate::counts::join_counts(a_clock, b_clock),
        ),
{
    let all = b.everything();
    assert forall|add: (T, Tag)| #[trigger] all.adds.contains(add) implies 0 < add.1.1
        <= crate::counts::count(b_clock, add.1.0) by {
        assert(b.has(add.0, add.1));
    }
    absorbed_adds_within(a, all, a_clock, b_clock);
}

proof fn joined_removals_within(
    a: Set<Removal>,
    b: Set<Removal>,
    a_clock: Map<NodeId, u64>,
    b_clock: Map<NodeId, u64>,
)
    requires
        super::removals::removals_within(a, a_clock),
        super::removals::removals_within(b, b_clock),
    ensures
        super::removals::removals_within(
            a.union(b),
            crate::counts::join_counts(a_clock, b_clock),
        ),
{
    let clock = crate::counts::join_counts(a_clock, b_clock);
    assert forall|removal: Removal| #[trigger] a.union(b).contains(removal) implies 0 < removal.0.1
        < removal.1.1 <= crate::counts::count(clock, removal.1.0) by {
        let node = removal.1.0;
        assert(crate::counts::count(clock, node) >= crate::counts::count(a_clock, node));
        assert(crate::counts::count(clock, node) >= crate::counts::count(b_clock, node));
        assert(a.contains(removal) || b.contains(removal));
    }
}

/// Domination is kept by joining both sides.
proof fn joined_dominates(
    a: Map<NodeId, u64>,
    b: Map<NodeId, u64>,
    c: Map<NodeId, u64>,
    d: Map<NodeId, u64>,
)
    requires
        crate::counts::dominates(a, c),
        crate::counts::dominates(b, d),
    ensures
        crate::counts::dominates(
            crate::counts::join_counts(a, b),
            crate::counts::join_counts(c, d),
        ),
{
    let above = crate::counts::join_counts(a, b);
    let beneath = crate::counts::join_counts(c, d);
    assert forall|node: NodeId| #[trigger] crate::counts::count(above, node)
        >= crate::counts::count(beneath, node) by {
        assert(crate::counts::count(a, node) >= crate::counts::count(c, node));
        assert(crate::counts::count(b, node) >= crate::counts::count(d, node));
    }
}

/// No two rows have the same key.
pub open spec fn keys_differ<K, V>(rows: Seq<(K, V)>) -> bool {
    forall|i: int, j: int|
        #![trigger rows[i], rows[j]]
        0 <= i < j < rows.len() ==> rows[i].0 != rows[j].0
}

/// The registers that were written after `since`.
fn rows_since<K: Ord + Copy, V: Copy + PartialEq>(
    map: &BTreeMap<K, LWWRegister<V>>,
    since: &VectorClock,
) -> (rows: Vec<(K, LWWRegister<V>)>)
    ensures
        crate::collections::lawful_key::<K>() ==> {
            &&& crate::maps::lww_map::collapse(rows@) == written_since(map@, since@)
            &&& keys_differ(rows@)
        },
{
    let all = map_entries(map);
    let ghost listed = all@.unref();
    let ghost target = written_since(map@, since@);
    let mut rows: Vec<(K, LWWRegister<V>)> = Vec::new();
    for i in 0..all.len()
        invariant
            listed == all@.unref(),
            target == written_since(map@, since@),
            crate::collections::lawful_key::<K>() ==> {
                &&& crate::collections::lists_map(listed, map@)
                &&& keys_differ(rows@)
                &&& forall|x: int|
                    #![trigger rows@[x]]
                    0 <= x < rows@.len() ==> target.contains_key(rows@[x].0)
                        && target[rows@[x].0] == rows@[x].1 && exists|j: int|
                        0 <= j < i && #[trigger] listed[j] == rows@[x]
                &&& forall|j: int|
                    #![trigger listed[j]]
                    0 <= j < i && target.contains_key(listed[j].0) ==> rows@.contains(listed[j])
            },
    {
        let row = (*all[i].0, copy_register(all[i].1));
        assert(listed[i as int] == row);
        let known: u64 = since.get(&row.1.node_id);
        let ghost before = rows@;
        if row.1.timestamp > known {
            rows.push(row);
        }
        proof {
            if crate::collections::lawful_key::<K>() {
                assert(map@.contains_key(row.0));
                assert forall|j: int|
                    #![trigger listed[j]]
                    0 <= j < i + 1 && target.contains_key(listed[j].0) implies rows@.contains(
                    listed[j],
                ) by {
                    if j < i {
                        let x = choose|x: int| 0 <= x < before.len() && before[x] == listed[j];
                        assert(rows@[x] == listed[j]);
                    } else {
                        assert(rows@[before.len() as int] == row);
                    }
                }
                assert forall|x: int|
                    #![trigger rows@[x]]
                    0 <= x < rows@.len() implies target.contains_key(rows@[x].0)
                    && target[rows@[x].0] == rows@[x].1 && exists|j: int|
                    0 <= j < i + 1 && #[trigger] listed[j] == rows@[x] by {
                    if x < before.len() {
                        assert(rows@[x] == before[x]);
                    } else {
                        assert(listed[i as int] == rows@[x]);
                    }
                }
                assert forall|x: int, y: int|
                    #![trigger rows@[x], rows@[y]]
                    0 <= x < y < rows@.len() implies rows@[x].0 != rows@[y].0 by {
                    assert(rows@[x] == before[x]);
                    if y < before.len() {
                        assert(rows@[y] == before[y]);
                    } else {
                        let j = choose|j: int| 0 <= j < i && #[trigger] listed[j] == before[x];
                        assert(listed[j].0 != listed[i as int].0);
                    }
                }
            }
        }
    }
    proof {
        if crate::collections::lawful_key::<K>() {
            crate::maps::lww_map::collapse_lists(rows@);
            let made = crate::maps::lww_map::collapse(rows@);
            assert forall|key: K| made.contains_key(key) == target.contains_key(key) by {
                if target.contains_key(key) {
                    assert(map@.contains_key(key));
                    let j = choose|j: int| 0 <= j < listed.len() && (#[trigger] listed[j]).0 == key;
                    assert(rows@.contains(listed[j]));
                }
                if made.contains_key(key) {
                    let x = choose|x: int| 0 <= x < rows@.len() && (#[trigger] rows@[x]).0 == key;
                    assert(target.contains_key(rows@[x].0));
                }
            }
            assert forall|key: K| made.contains_key(key) implies made[key] == target[key] by {
                let x = choose|x: int| 0 <= x < rows@.len() && (#[trigger] rows@[x]).0 == key;
                assert(made[rows@[x].0] == rows@[x].1);
            }
            assert(made =~= target);
        }
    }
    rows
}

/// Rows collapse to nothing only where there are none.
pub proof fn collapse_is_empty<K, V: Clone + PartialEq>(rows: Seq<(K, LWWRegister<V>)>)
    ensures
        crate::maps::lww_map::collapse(rows).is_empty() <==> rows.len() == 0,
{
    let made = crate::maps::lww_map::collapse(rows);
    if rows.len() > 0 {
        assert(made.contains_key(rows.last().0));
        assert(made.dom().contains(rows.last().0));
    } else {
        assert(made.dom() =~= Set::empty());
    }
}

impl DeltaCrdt for CanvasDocument {
    type Delta = CanvasDelta;

    type Version = VectorClock;

    type DeltaModel = Change;

    type VersionModel = Map<NodeId, u64>;

    open spec fn delta_model(delta: CanvasDelta) -> Change {
        delta@
    }

    open spec fn version_model(version: VectorClock) -> Map<NodeId, u64> {
        version@
    }

    open spec fn version_of(a: Canvas) -> Map<NodeId, u64> {
        a.clock
    }

    open spec fn delta_of(a: Canvas, since: Map<NodeId, u64>) -> Change {
        a.change_since(since)
    }

    open spec fn absorb(a: Canvas, delta: Change) -> Canvas {
        a.changed(delta)
    }

    open spec fn vacuous(delta: Change) -> bool {
        &&& VectorClock::vacuous(delta.clock)
        &&& delta.pixels.is_empty()
        &&& ORSet::<NodeId>::vacuous(delta.users)
        &&& delta.cursors.is_empty()
        &&& ORSet::<Rgba>::vacuous(delta.palette)
        &&& GCounter::vacuous(delta.paint_counts)
        &&& delta.user_removals.is_empty()
        &&& delta.palette_removals.is_empty()
        &&& VectorClock::vacuous(delta.paint_times)
    }

    open spec fn is_versioned(a: Canvas) -> bool {
        true
    }

    open spec fn covers(current: Map<NodeId, u64>, other: Map<NodeId, u64>) -> bool {
        crate::counts::dominates(current, other)
    }

    /// What `since` covers of the sender, the receiver has.
    open spec fn bridges(
        sender: Canvas,
        since: Map<NodeId, u64>,
        receiver: Canvas,
    ) -> bool {
        &&& registers_bridged(sender.pixels, since, receiver.pixels)
        &&& registers_bridged(sender.cursors, since, receiver.cursors)
        &&& super::removals::set_bridged(
            sender.users,
            sender.user_removals,
            since,
            receiver.users,
            receiver.user_removals,
        )
        &&& super::removals::set_bridged(
            sender.palette,
            sender.palette_removals,
            since,
            receiver.palette,
            receiver.palette_removals,
        )
        &&& counts_bridged(sender, since, receiver)
    }

    open spec fn delta_agree(
        d: Change, e: Change) -> bool {
        &&& crate::maps::lww_map::registers_agree(d.pixels, e.pixels)
        &&& crate::maps::lww_map::registers_agree(d.cursors, e.cursors)
    }

    open spec fn delta_valid(d: Change) -> bool {
        &&& stamped_within(d.pixels, d.clock)
        &&& stamped_within(d.cursors, d.clock)
        &&& super::removals::adds_within(d.users.adds, d.clock)
        &&& super::removals::adds_within(d.palette.adds, d.clock)
        &&& super::removals::removals_within(d.user_removals, d.clock)
        &&& super::removals::removals_within(d.palette_removals, d.clock)
        &&& crate::counts::dominates(d.clock, d.paint_times)
        &&& crate::counts::dominates(d.paint_times, d.paint_counts)
        &&& d.users.removed == super::removals::removed_tags(d.user_removals)
        &&& d.palette.removed == super::removals::removed_tags(d.palette_removals)
    }

    fn copy_version(version: &VectorClock) -> (copy: VectorClock) {
        version.clone()
    }

    /// Returns the document's current [`VectorClock`] as its version identifier.
    fn version(&self) -> (version: VectorClock) {
        self.clock.clone()
    }

    /// Compute a minimal delta containing only the changes this document has that `since` does
    /// not. [`VectorClock::new`] gets a full-state delta.
    ///
    /// Each field filters against the same clock: pixels and cursors by their timestamps, and
    /// adds by the sequence numbers of their tags, which all come from it. A tombstone is included
    /// when its removal is new, and the paint count of a node when its last paint is.
    fn delta_since(&self, since: &VectorClock) -> (delta: CanvasDelta)
        ensures
            keys_differ(delta.pixels@),
            keys_differ(delta.cursors@),
    {
        let known: BTreeMap<NodeId, u64> = since.value();
        let users = set_since(&self.users, &self.user_removals, &known);
        let palette = set_since(&self.palette, &self.palette_removals, &known);
        CanvasDelta {
            clock: self.clock.delta_since(since),
            pixels: rows_since(&self.pixels, since),
            users: users.0,
            cursors: rows_since(&self.cursors, since),
            palette: palette.0,
            paint_counts: counts_ticked_since(
                &self.paint_counts.counts,
                &self.paint_times.clock,
                &known,
            ),
            user_removals: users.1,
            palette_removals: palette.1,
            paint_times: self.paint_times.delta_since(since),
        }
    }

    /// Apply a previously computed delta, advancing all affected CRDTs.
    fn merge_delta(&mut self, delta: CanvasDelta) {
        self.clock.merge_delta(delta.clock);
        merge_rows(&mut self.pixels, delta.pixels);
        self.users.merge_delta(delta.users);
        merge_rows(&mut self.cursors, delta.cursors);
        self.palette.merge_delta(delta.palette);
        self.paint_counts.merge_delta(delta.paint_counts);
        crate::collections::add_all(&mut self.user_removals, delta.user_removals);
        crate::collections::add_all(&mut self.palette_removals, delta.palette_removals);
        self.paint_times.merge_delta(delta.paint_times);
    }

    fn is_empty_delta(delta: &CanvasDelta) -> (empty: bool) {
        proof {
            collapse_is_empty(delta.pixels@);
            collapse_is_empty(delta.cursors@);
        }
        VectorClock::is_empty_delta(&delta.clock) && delta.pixels.is_empty()
            && delta.cursors.is_empty() && ORSet::<NodeId>::is_empty_delta(&delta.users)
            && ORSet::<Rgba>::is_empty_delta(&delta.palette) && GCounter::is_empty_delta(
            &delta.paint_counts,
        ) && delta.user_removals.is_empty() && delta.palette_removals.is_empty()
            && VectorClock::is_empty_delta(&delta.paint_times)
    }

    /// Returns `true` when `current` causally dominates `other`: it has observed everything
    /// `other` has, so a delta computed against `other` can be applied without gaps.
    fn version_includes(current: &VectorClock, other: &VectorClock) -> (included: bool) {
        current.dominates(other)
    }

    proof fn delta_catches_up(
        sender: Canvas,
        since: Map<NodeId, u64>,
        receiver: Canvas,
    ) {
        let caught = receiver.changed(sender.change_since(since));
        crate::counts::beyond_is_enough(sender.clock, since, receiver.clock);
        super::removals::part_since_is_enough::<NodeId>(
            sender.users,
            sender.user_removals,
            since,
            receiver.users,
            receiver.user_removals,
        );
        super::removals::part_since_is_enough::<Rgba>(
            sender.palette,
            sender.palette_removals,
            since,
            receiver.palette,
            receiver.palette_removals,
        );
        ORSet::<NodeId>::merge_includes(sender.users, receiver.users);
        ORSet::<Rgba>::merge_includes(sender.palette, receiver.palette);
        bridged_is_enough(sender.pixels, since, receiver.pixels);
        bridged_is_enough(sender.cursors, since, receiver.cursors);
        assert forall|node: NodeId| #[trigger] crate::counts::count(caught.paint_counts, node)
            >= crate::counts::count(sender.paint_counts, node) by {
            assert(crate::counts::count(sender.paint_counts, node) == crate::counts::count(
                sender.paint_counts,
                node,
            ));
        }
        assert forall|node: NodeId| #[trigger] crate::counts::count(caught.paint_times, node)
            >= crate::counts::count(sender.paint_times, node) by {
            assert(crate::counts::count(sender.paint_times, node) == crate::counts::count(
                sender.paint_times,
                node,
            ));
        }
    }

    proof fn delta_is_merge(
        sender: Canvas,
        since: Map<NodeId, u64>,
        receiver: Canvas,
    ) {
        let caught = receiver.changed(sender.change_since(since));
        let joined = receiver.merged(sender);
        VectorClock::delta_is_merge(sender.clock, since, receiver.clock);
        super::removals::part_since_is_enough::<NodeId>(
            sender.users,
            sender.user_removals,
            since,
            receiver.users,
            receiver.user_removals,
        );
        super::removals::part_since_is_enough::<Rgba>(
            sender.palette,
            sender.palette_removals,
            since,
            receiver.palette,
            receiver.palette_removals,
        );
        bridged_is_enough(sender.pixels, since, receiver.pixels);
        bridged_is_enough(sender.cursors, since, receiver.cursors);
        departures_are_mutual(sender, receiver);
        assert(joined.cursors =~= crate::maps::lww_map::join_registers(
            receiver.cursors,
            sender.cursors,
        )) by {
            assert forall|user: NodeId|
                receiver.cursors.contains_key(user) || sender.cursors.contains_key(
                    user,
                ) implies !receiver.departures(sender).contains(user) by {}
        }
        assert forall|node: NodeId| #[trigger] crate::counts::count(caught.paint_counts, node)
            == crate::counts::count(joined.paint_counts, node) by {
            assert(crate::counts::count(sender.paint_counts, node) == crate::counts::count(
                sender.paint_counts,
                node,
            ));
        }
        assert forall|node: NodeId| #[trigger] crate::counts::count(caught.paint_times, node)
            == crate::counts::count(joined.paint_times, node) by {
            assert(crate::counts::count(sender.paint_times, node) == crate::counts::count(
                sender.paint_times,
                node,
            ));
        }
    }

    proof fn delta_commutative(a: Canvas, d: Change, e: Change) {
        VectorClock::delta_commutative(a.clock, d.clock, e.clock);
        GCounter::delta_commutative(a.paint_counts, d.paint_counts, e.paint_counts);
        VectorClock::delta_commutative(a.paint_times, d.paint_times, e.paint_times);
        assert(a.changed(d).changed(e).user_removals =~= a.changed(e).changed(d).user_removals);
        assert(a.changed(d).changed(e).palette_removals =~= a.changed(e).changed(
            d,
        ).palette_removals);
        ORSet::<NodeId>::delta_commutative(a.users, d.users, e.users);
        ORSet::<Rgba>::delta_commutative(a.palette, d.palette, e.palette);
        crate::maps::lww_map::registers_associate(a.pixels, d.pixels, e.pixels);
        crate::maps::lww_map::registers_associate(a.pixels, e.pixels, d.pixels);
        crate::maps::lww_map::registers_commute(d.pixels, e.pixels);
        crate::maps::lww_map::registers_associate(a.cursors, d.cursors, e.cursors);
        crate::maps::lww_map::registers_associate(a.cursors, e.cursors, d.cursors);
        crate::maps::lww_map::registers_commute(d.cursors, e.cursors);
    }

    proof fn delta_idempotent(a: Canvas, d: Change) {
        VectorClock::delta_idempotent(a.clock, d.clock);
        GCounter::delta_idempotent(a.paint_counts, d.paint_counts);
        VectorClock::delta_idempotent(a.paint_times, d.paint_times);
        assert(a.changed(d).changed(d).user_removals =~= a.changed(d).user_removals);
        assert(a.changed(d).changed(d).palette_removals =~= a.changed(d).palette_removals);
        ORSet::<NodeId>::delta_idempotent(a.users, d.users);
        ORSet::<Rgba>::delta_idempotent(a.palette, d.palette);
        crate::maps::lww_map::registers_associate(a.pixels, d.pixels, d.pixels);
        crate::maps::lww_map::registers_repeat(d.pixels);
        crate::maps::lww_map::registers_associate(a.cursors, d.cursors, d.cursors);
        crate::maps::lww_map::registers_repeat(d.cursors);
    }

    proof fn delta_keeps_valid(a: Canvas, d: Change) {
        merged_registers_within(a.pixels, d.pixels, a.clock, d.clock);
        merged_registers_within(a.cursors, d.cursors, a.clock, d.clock);
        absorbed_adds_within(a.users, d.users, a.clock, d.clock);
        absorbed_adds_within(a.palette, d.palette, a.clock, d.clock);
        crate::sets::orset::absorbed_has(a.users, d.users);
        crate::sets::orset::absorbed_has(a.palette, d.palette);
        super::removals::removed_tags_join(a.user_removals, d.user_removals);
        super::removals::removed_tags_join(a.palette_removals, d.palette_removals);
        joined_removals_within(a.user_removals, d.user_removals, a.clock, d.clock);
        joined_removals_within(a.palette_removals, d.palette_removals, a.clock, d.clock);
        joined_dominates(a.clock, d.clock, a.paint_times, d.paint_times);
        joined_dominates(a.paint_times, d.paint_times, a.paint_counts, d.paint_counts);
    }

    proof fn delta_of_is_valid(a: Canvas, since: Map<NodeId, u64>) {
        let d = a.change_since(since);
        assert forall|coord: PixelCoord| #[trigger] d.pixels.contains_key(coord) implies
            0 < d.pixels[coord].timestamp
            <= crate::counts::count(d.clock, d.pixels[coord].node_id) by {
            assert(a.pixels.contains_key(coord));
        }
        assert forall|user: NodeId| #[trigger] d.cursors.contains_key(user) implies
            0 < d.cursors[user].timestamp
            <= crate::counts::count(d.clock, d.cursors[user].node_id) by {
            assert(a.cursors.contains_key(user));
        }
        part_since_within(a.users, a.user_removals, since, a.clock);
        part_since_within(a.palette, a.palette_removals, since, a.clock);
        assert forall|node: NodeId| #[trigger] crate::counts::count(d.clock, node)
            >= crate::counts::count(d.paint_times, node) by {
            assert(crate::counts::count(a.clock, node) >= crate::counts::count(
                a.paint_times,
                node,
            ));
        }
        assert forall|node: NodeId| #[trigger] crate::counts::count(d.paint_times, node)
            >= crate::counts::count(d.paint_counts, node) by {
            assert(crate::counts::count(a.paint_times, node) >= crate::counts::count(
                a.paint_counts,
                node,
            ));
        }
    }

    proof fn empty_delta_changes_nothing(a: Canvas, d: Change) {
        VectorClock::empty_delta_changes_nothing(a.clock, d.clock);
        GCounter::empty_delta_changes_nothing(a.paint_counts, d.paint_counts);
        VectorClock::empty_delta_changes_nothing(a.paint_times, d.paint_times);
        ORSet::<NodeId>::empty_delta_changes_nothing(a.users, d.users);
        ORSet::<Rgba>::empty_delta_changes_nothing(a.palette, d.palette);
        let after = a.changed(d);
        assert(after.pixels =~= a.pixels);
        assert(after.cursors =~= a.cursors);
        assert(after.user_removals =~= a.user_removals);
        assert(after.palette_removals =~= a.palette_removals);
    }

    proof fn delta_since_own_version_is_empty(a: Canvas) {
        let d = a.change_since(a.clock);
        VectorClock::delta_since_own_version_is_empty(a.clock);
        assert(d.pixels.dom() =~= Set::empty());
        assert(d.cursors.dom() =~= Set::empty());
        super::removals::nothing_since(a.users, a.user_removals, a.clock);
        super::removals::nothing_since(a.palette, a.palette_removals, a.clock);
        assert forall|node: NodeId|
            !d.paint_counts.dom().contains(node) && !d.paint_times.dom().contains(node) by {
            assert(crate::counts::count(a.clock, node) >= crate::counts::count(
                a.paint_times,
                node,
            ));
        }
        assert(d.paint_counts.dom() =~= Set::empty());
        assert(d.paint_times.dom() =~= Set::empty());
    }

    proof fn version_includes_itself(v: Map<NodeId, u64>) {
    }

    proof fn version_includes_transitive(
        u: Map<NodeId, u64>,
        v: Map<NodeId, u64>,
        w: Map<NodeId, u64>,
    ) {
        crate::counts::dominates_transitive(u, v, w);
    }

    proof fn merge_advances_version(a: Canvas, b: Canvas) {
        crate::counts::join_dominates(a.clock, b.clock);
    }
}

/// A receiver that has the registers that a version covers needs only those written since.
proof fn bridged_is_enough<K, V: Clone + PartialEq>(
    sender: Map<K, LWWRegister<V>>,
    since: Map<NodeId, u64>,
    receiver: Map<K, LWWRegister<V>>,
)
    requires
        registers_bridged(sender, since, receiver),
    ensures
        crate::maps::lww_map::join_registers(receiver, written_since(sender, since))
            == crate::maps::lww_map::join_registers(receiver, sender),
{
    let left = crate::maps::lww_map::join_registers(receiver, written_since(sender, since));
    let right = crate::maps::lww_map::join_registers(receiver, sender);
    assert forall|key: K| left.contains_key(key) == right.contains_key(key) by {
        if sender.contains_key(key) {}
    }
    assert forall|key: K| left.contains_key(key) implies left[key] == right[key] by {
        if sender.contains_key(key) {}
    }
    assert(left =~= right);
}

/// What a dated set has beyond a version is within what the clock has beyond it, and dated.
proof fn part_since_within<T>(
    set: Tagged<T>,
    removals: Set<Removal>,
    since: Map<NodeId, u64>,
    clock: Map<NodeId, u64>,
)
    requires
        super::removals::active_within(set, clock),
        super::removals::removals_within(removals, clock),
        set.removed == super::removals::removed_tags(removals),
    ensures
        super::removals::adds_within(
            super::removals::part_since(set, removals, since).adds,
            crate::counts::counts_beyond(clock, since),
        ),
        super::removals::removals_within(
            super::removals::removals_beyond(removals, since),
            crate::counts::counts_beyond(clock, since),
        ),
        super::removals::part_since(set, removals, since).removed == super::removals::removed_tags(
            super::removals::removals_beyond(removals, since),
        ),
{
    let part = super::removals::part_since(set, removals, since);
    let fresh = super::removals::removals_beyond(removals, since);
    assert forall|add: (T, Tag)| #[trigger] part.adds.contains(add) implies 0 < add.1.1
        <= crate::counts::count(crate::counts::counts_beyond(clock, since), add.1.0) by {
        assert(set.has(add.0, add.1));
    }
    assert forall|tag: Tag| super::removals::removed_tags(fresh).contains(tag) implies
        set.removed.contains(tag) by {
        let stamp = choose|stamp: Tag| #[trigger] fresh.contains((tag, stamp));
        assert(removals.contains((tag, stamp)));
    }
    assert(part.removed =~= super::removals::removed_tags(fresh));
}

} // verus!

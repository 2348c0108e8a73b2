//! Multi-value register: keeps every write that no other write has superseded.
use crate::clocks::{ClockOrder, VectorClock};
use crate::collections::{exact_clone, exact_eq};
use crate::counts::dominates_transitive;
use crate::traits::{Crdt, DeltaCrdt};
use crate::NodeId;
use vstd::prelude::*;

verus! {

/// Multi-value register.
///
/// Each write carries a vector clock. A write replaces those that its clock dominates; writes
/// with concurrent clocks are all kept.
#[derive(Debug)]
pub struct MVRegister<T> {
    pub entries: Vec<(VectorClock, T)>,
}

/// The writes that a register keeps, in the order in which it keeps them.
pub open spec fn rows_of<T>(entries: Seq<(VectorClock, T)>) -> Seq<(Map<NodeId, u64>, T)> {
    Seq::new(entries.len(), |i: int| (entries[i].0@, entries[i].1))
}

impl<T> View for MVRegister<T> {
    type V = Seq<(Map<NodeId, u64>, T)>;

    open spec fn view(&self) -> Seq<(Map<NodeId, u64>, T)> {
        rows_of(self.entries@)
    }
}

impl<T: Clone> Clone for MVRegister<T> {
    fn clone(&self) -> (copy: Self)
        ensures
            exact_clone::<T>() ==> copy@ == self@,
    {
        MVRegister { entries: clone_entries(&self.entries) }
    }
}

/// Clock `a` happened after clock `b`.
pub open spec fn after(a: Map<NodeId, u64>, b: Map<NodeId, u64>) -> bool {
    crate::counts::dominates(a, b) && !crate::counts::dominates(b, a)
}

/// Among `rows` is the write of `value` at `clock`.
pub open spec fn holds<T>(
    rows: Seq<(Map<NodeId, u64>, T)>,
    clock: Map<NodeId, u64>,
    value: T,
) -> bool {
    exists|i: int|
        0 <= i < rows.len() && crate::counts::same_counts((#[trigger] rows[i]).0, clock)
            && rows[i].1 == value
}

/// Among `rows` is a write that happened after `clock`.
pub open spec fn superseded<T>(
    rows: Seq<(Map<NodeId, u64>, T)>,
    clock: Map<NodeId, u64>,
) -> bool {
    exists|i: int| 0 <= i < rows.len() && after((#[trigger] rows[i]).0, clock)
}

/// No write occurs twice among `rows`.
pub open spec fn distinct<T>(rows: Seq<(Map<NodeId, u64>, T)>) -> bool {
    forall|i: int, j: int|
        0 <= i < j < rows.len() ==> !(crate::counts::same_counts(
            (#[trigger] rows[i]).0,
            (#[trigger] rows[j]).0,
        ) && rows[i].1 == rows[j].1)
}

/// Among `rows` is a write that `clock` is part of.
pub open spec fn covered<T>(
    rows: Seq<(Map<NodeId, u64>, T)>,
    clock: Map<NodeId, u64>,
) -> bool {
    exists|i: int| 0 <= i < rows.len() && crate::counts::dominates((#[trigger] rows[i]).0, clock)
}

/// `rows` with those of `more` that it does not hold yet behind it.
pub open spec fn with_new<T>(
    rows: Seq<(Map<NodeId, u64>, T)>,
    more: Seq<(Map<NodeId, u64>, T)>,
) -> Seq<(Map<NodeId, u64>, T)>
    decreases more.len(),
{
    if more.len() == 0 {
        rows
    } else {
        let before = with_new(rows, more.drop_last());
        if holds(before, more.last().0, more.last().1) {
            before
        } else {
            before.push(more.last())
        }
    }
}

/// The rows that no other row supersedes.
pub open spec fn latest<T>(rows: Seq<(Map<NodeId, u64>, T)>) -> Seq<(Map<NodeId, u64>, T)> {
    rows.filter(|row: (Map<NodeId, u64>, T)| !superseded(rows, row.0))
}

/// The rows after a write of `value` at `clock`: those that `clock` dominates are gone, and the
/// write is added unless one of the others happened after it.
pub open spec fn written<T>(
    rows: Seq<(Map<NodeId, u64>, T)>,
    value: T,
    clock: Map<NodeId, u64>,
) -> Seq<(Map<NodeId, u64>, T)> {
    let kept = rows.filter(
        |row: (Map<NodeId, u64>, T)| !crate::counts::dominates(clock, row.0),
    );
    if superseded(kept, clock) {
        kept
    } else {
        kept.push((clock, value))
    }
}

/// The clocks of the rows.
pub open spec fn clocks_of<T>(rows: Seq<(Map<NodeId, u64>, T)>) -> Seq<Map<NodeId, u64>> {
    rows.map_values(|row: (Map<NodeId, u64>, T)| row.0)
}

/// One of the clocks dominates `clock`.
pub open spec fn seen(clocks: Seq<Map<NodeId, u64>>, clock: Map<NodeId, u64>) -> bool {
    exists|i: int| 0 <= i < clocks.len() && crate::counts::dominates(#[trigger] clocks[i], clock)
}

/// The rows that none of the clocks of `since` dominates.
pub open spec fn unseen<T>(
    rows: Seq<(Map<NodeId, u64>, T)>,
    since: Seq<Map<NodeId, u64>>,
) -> Seq<(Map<NodeId, u64>, T)> {
    rows.filter(|row: (Map<NodeId, u64>, T)| !seen(since, row.0))
}

/// The models of the clocks.
pub open spec fn clock_models(clocks: Seq<VectorClock>) -> Seq<Map<NodeId, u64>> {
    clocks.map_values(|clock: VectorClock| clock@)
}

/// A copy of the entries.
fn clone_entries<T: Clone>(entries: &Vec<(VectorClock, T)>) -> (copy: Vec<(VectorClock, T)>)
    ensures
        exact_clone::<T>() ==> rows_of(copy@) == rows_of(entries@),
{
    let mut copy: Vec<(VectorClock, T)> = Vec::new();
    for i in 0..entries.len()
        invariant
            copy@.len() == i,
            exact_clone::<T>() ==> rows_of(copy@) == rows_of(entries@).take(i as int),
    {
        let value = entries[i].1.clone();
        assert(cloned(entries@[i as int].1, value));
        copy.push((entries[i].0.clone(), value));
        assert(exact_clone::<T>() ==> rows_of(copy@) =~= rows_of(entries@).take(i + 1));
    }
    assert(rows_of(entries@).take(entries@.len() as int) =~= rows_of(entries@));
    copy
}

/// Whether the entries hold the write of `value` at `clock`.
fn contains_entry<T: PartialEq>(
    entries: &Vec<(VectorClock, T)>,
    clock: &VectorClock,
    value: &T,
) -> (found: bool)
    ensures
        exact_eq::<T>() ==> found == holds(rows_of(entries@), clock@, *value),
{
    proof {
        reveal(vstd::laws_eq::obeys_concrete_eq);
    }
    let ghost rows = rows_of(entries@);
    for i in 0..entries.len()
        invariant
            rows == rows_of(entries@),
            exact_eq::<T>() ==> forall|j: int|
                0 <= j < i ==> !(crate::counts::same_counts((#[trigger] rows[j]).0, clock@)
                    && rows[j].1 == *value),
    {
        proof {
            reveal(vstd::laws_eq::obeys_concrete_eq);
        }
        let same = entries[i].0.partial_order(clock) == ClockOrder::Equal && entries[i].1 == *value;
        proof {
            crate::counts::same_means_both(rows[i as int].0, clock@);
        }
        assert(exact_eq::<T>() ==> same == (crate::counts::same_counts(rows[i as int].0, clock@)
            && rows[i as int].1 == *value));
        if same {
            return true;
        }
    }
    false
}

/// Whether one of the entries happened after `clock`.
fn is_superseded<T>(entries: &Vec<(VectorClock, T)>, clock: &VectorClock) -> (found: bool)
    ensures
        found == superseded(rows_of(entries@), clock@),
{
    let ghost rows = rows_of(entries@);
    for i in 0..entries.len()
        invariant
            rows == rows_of(entries@),
            forall|j: int| 0 <= j < i ==> !after((#[trigger] rows[j]).0, clock@),
    {
        let order = entries[i].0.partial_order(clock);
        assert(rows[i as int].0 == entries@[i as int].0@);
        if order == ClockOrder::After {
            return true;
        }
    }
    false
}

impl<T: Clone + PartialEq> PartialEq for MVRegister<T> {
    /// Registers are equal when they hold the same writes, in whatever order.
    fn eq(&self, other: &Self) -> (equal: bool) {
        if self.entries.len() != other.entries.len() {
            return false;
        }
        for i in 0..self.entries.len()
            invariant
                exact_eq::<T>() ==> forall|j: int|
                    0 <= j < i ==> holds(other@, (#[trigger] self@[j]).0, self@[j].1),
        {
            assert(self@[i as int] == (self.entries@[i as int].0@, self.entries@[i as int].1));
            if !contains_entry(&other.entries, &self.entries[i].0, &self.entries[i].1) {
                return false;
            }
        }
        true
    }
}

impl<T: Clone + PartialEq> vstd::std_specs::cmp::PartialEqSpecImpl for MVRegister<T> {
    open spec fn obeys_eq_spec() -> bool {
        exact_eq::<T>()
    }

    open spec fn eq_spec(&self, other: &Self) -> bool {
        &&& self@.len() == other@.len()
        &&& forall|i: int|
            0 <= i < self@.len() ==> holds(other@, (#[trigger] self@[i]).0, self@[i].1)
    }
}

impl<T: Clone + PartialEq> Default for MVRegister<T> {
    fn default() -> (register: Self)
        ensures
            register@ == Seq::<(Map<NodeId, u64>, T)>::empty(),
    {
        let register = MVRegister { entries: Vec::new() };
        assert(register@ =~= Seq::empty());
        register
    }
}

impl<T: Clone + PartialEq> MVRegister<T> {
    /// A register that was never written.
    pub fn new() -> (register: Self)
        ensures
            register@ == Seq::<(Map<NodeId, u64>, T)>::empty(),
    {
        Self::default()
    }

    /// Writes `value` at the time of `clock`. Entries that `clock` dominates are replaced (the
    /// same logical time replaces too); the write is ignored where an entry happened after it.
    pub fn write(&mut self, value: T, clock: VectorClock)
        ensures
            final(self)@ == written(old(self)@, value, clock@),
    {
        let ghost rows = self@;
        let ghost keep = |row: (Map<NodeId, u64>, T)|
            !crate::counts::dominates(clock@, row.0);
        let mut old_entries: Vec<(VectorClock, T)> = Vec::new();
        std::mem::swap(&mut old_entries, &mut self.entries);
        let mut kept: Vec<(VectorClock, T)> = Vec::new();
        assert(rows.take(0).filter(keep) =~= Seq::empty()) by {
            reveal(Seq::filter);
        }
        assert(rows_of(kept@) =~= Seq::empty());
        for entry in iter: old_entries
            invariant
                iter.seq().len() == rows.len(),
                rows == rows_of(iter.seq()),
                keep == (|row: (Map<NodeId, u64>, T)| !crate::counts::dominates(clock@, row.0)),
                rows_of(kept@) == rows.take(iter.index()).filter(keep),
        {
            let ghost row = (entry.0@, entry.1);
            let ghost before = rows_of(kept@);
            let ghost at = iter.index();
            proof {
                assert(row == rows[at]);
                assert(rows.take(at + 1) =~= rows.take(at).push(row));
                rows.take(at).lemma_filter_push(row, keep);
            }
            let replaced = clock.dominates(&entry.0);
            if !replaced {
                kept.push(entry);
                assert(rows_of(kept@) =~= before.push(row));
            }
        }
        assert(rows.take(rows.len() as int) =~= rows);
        let newer = is_superseded(&kept, &clock);
        let ghost before = rows_of(kept@);
        if !newer {
            kept.push((clock, value));
            assert(rows_of(kept@) =~= before.push((clock@, value)));
        }
        self.entries = kept;
    }
}

/// The entries that no other entry supersedes.
fn latest_entries<T: Clone>(entries: &Vec<(VectorClock, T)>) -> (kept: Vec<(VectorClock, T)>)
    ensures
        exact_clone::<T>() ==> rows_of(kept@) == latest(rows_of(entries@)),
{
    let ghost rows = rows_of(entries@);
    let ghost keep = |row: (Map<NodeId, u64>, T)| !superseded(rows, row.0);
    let mut kept: Vec<(VectorClock, T)> = Vec::new();
    assert(rows.take(0).filter(keep) =~= Seq::empty()) by {
        reveal(Seq::filter);
    }
    assert(rows_of(kept@) =~= Seq::empty());
    for i in 0..entries.len()
        invariant
            rows == rows_of(entries@),
            keep == (|row: (Map<NodeId, u64>, T)| !superseded(rows, row.0)),
            exact_clone::<T>() ==> rows_of(kept@) == rows.take(i as int).filter(keep),
    {
        let ghost row = rows[i as int];
        let ghost before = rows_of(kept@);
        proof {
            assert(rows.take(i + 1) =~= rows.take(i as int).push(row));
            rows.take(i as int).lemma_filter_push(row, keep);
        }
        if !is_superseded(entries, &entries[i].0) {
            let value = entries[i].1.clone();
            assert(cloned(entries@[i as int].1, value));
            kept.push((entries[i].0.clone(), value));
            assert(exact_clone::<T>() ==> rows_of(kept@) =~= before.push(row));
        }
    }
    assert(rows.take(rows.len() as int) =~= rows);
    kept
}

/// Whether one of the clocks dominates `clock`.
fn is_seen(clocks: &Vec<VectorClock>, clock: &VectorClock) -> (found: bool)
    ensures
        found == seen(clock_models(clocks@), clock@),
{
    let ghost models = clock_models(clocks@);
    for i in 0..clocks.len()
        invariant
            models == clock_models(clocks@),
            forall|j: int| 0 <= j < i ==> !crate::counts::dominates(#[trigger] models[j], clock@),
    {
        assert(models[i as int] == clocks@[i as int]@);
        if clocks[i].dominates(clock) {
            return true;
        }
    }
    false
}

/// The entries that none of the clocks of `since` dominates.
fn unseen_entries<T: Clone>(entries: &Vec<(VectorClock, T)>, since: &Vec<VectorClock>) -> (kept:
    Vec<(VectorClock, T)>)
    ensures
        exact_clone::<T>() ==> rows_of(kept@) == unseen(
            rows_of(entries@),
            clock_models(since@),
        ),
{
    let ghost rows = rows_of(entries@);
    let ghost known = clock_models(since@);
    let ghost keep = |row: (Map<NodeId, u64>, T)| !seen(known, row.0);
    let mut kept: Vec<(VectorClock, T)> = Vec::new();
    assert(rows.take(0).filter(keep) =~= Seq::empty()) by {
        reveal(Seq::filter);
    }
    assert(rows_of(kept@) =~= Seq::empty());
    for i in 0..entries.len()
        invariant
            rows == rows_of(entries@),
            known == clock_models(since@),
            keep == (|row: (Map<NodeId, u64>, T)| !seen(known, row.0)),
            exact_clone::<T>() ==> rows_of(kept@) == rows.take(i as int).filter(keep),
    {
        let ghost row = rows[i as int];
        let ghost before = rows_of(kept@);
        proof {
            assert(rows.take(i + 1) =~= rows.take(i as int).push(row));
            rows.take(i as int).lemma_filter_push(row, keep);
        }
        if !is_seen(since, &entries[i].0) {
            let value = entries[i].1.clone();
            assert(cloned(entries@[i as int].1, value));
            kept.push((entries[i].0.clone(), value));
            assert(exact_clone::<T>() ==> rows_of(kept@) =~= before.push(row));
        }
    }
    assert(rows.take(rows.len() as int) =~= rows);
    kept
}

/// What holds of a clock holds of an equal clock.
proof fn same_clock_same_order(a: Map<NodeId, u64>, b: Map<NodeId, u64>, x: Map<NodeId, u64>)
    requires
        crate::counts::same_counts(a, b),
    ensures
        crate::counts::same_counts(b, a),
        crate::counts::dominates(a, x) == crate::counts::dominates(b, x),
        crate::counts::dominates(x, a) == crate::counts::dominates(x, b),
        crate::counts::same_counts(a, x) == crate::counts::same_counts(b, x),
        crate::counts::same_counts(x, a) == crate::counts::same_counts(x, b),
        after(a, x) == after(b, x),
        after(x, a) == after(x, b),
{
    assert forall|n: NodeId|
        #[trigger] crate::counts::count(b, n) == crate::counts::count(a, n) by {
        assert(crate::counts::count(a, n) == crate::counts::count(b, n));
    }
    assert forall|y: Map<NodeId, u64>, z: Map<NodeId, u64>, w: Map<NodeId, u64>|
        crate::counts::same_counts(y, z) && #[trigger] crate::counts::dominates(y, w) implies
        #[trigger] crate::counts::dominates(z, w) by {
        assert forall|n: NodeId| #[trigger] crate::counts::count(z, n)
            >= crate::counts::count(w, n) by {
            assert(crate::counts::count(y, n) == crate::counts::count(z, n));
            assert(crate::counts::count(y, n) >= crate::counts::count(w, n));
        }
    }
    assert forall|y: Map<NodeId, u64>, z: Map<NodeId, u64>, w: Map<NodeId, u64>|
        crate::counts::same_counts(y, z) && #[trigger] crate::counts::dominates(w, y) implies
        #[trigger] crate::counts::dominates(w, z) by {
        assert forall|n: NodeId| #[trigger] crate::counts::count(w, n)
            >= crate::counts::count(z, n) by {
            assert(crate::counts::count(y, n) == crate::counts::count(z, n));
            assert(crate::counts::count(w, n) >= crate::counts::count(y, n));
        }
    }
    crate::counts::same_means_both(a, x);
    crate::counts::same_means_both(b, x);
    crate::counts::same_means_both(x, a);
    crate::counts::same_means_both(x, b);
}

/// `with_new` holds what either sequence holds.
proof fn with_new_holds<T>(
    rows: Seq<(Map<NodeId, u64>, T)>,
    more: Seq<(Map<NodeId, u64>, T)>,
    clock: Map<NodeId, u64>,
    value: T,
)
    ensures
        holds(with_new(rows, more), clock, value) <==> holds(rows, clock, value) || holds(
            more,
            clock,
            value,
        ),
        superseded(with_new(rows, more), clock) <==> superseded(rows, clock) || superseded(
            more,
            clock,
        ),
    decreases more.len(),
{
    if more.len() > 0 {
        let rest = more.drop_last();
        let last = more.last();
        let before = with_new(rows, rest);
        with_new_holds(rows, rest, clock, value);
        if holds(rest, clock, value) {
            let i = choose|i: int|
                0 <= i < rest.len() && crate::counts::same_counts((#[trigger] rest[i]).0, clock)
                    && rest[i].1 == value;
            assert(more[i] == rest[i]);
        }
        if superseded(rest, clock) {
            let i = choose|i: int| 0 <= i < rest.len() && after((#[trigger] rest[i]).0, clock);
            assert(more[i] == rest[i]);
        }
        if holds(more, clock, value) && !holds(rest, clock, value) {
            let i = choose|i: int|
                0 <= i < more.len() && crate::counts::same_counts((#[trigger] more[i]).0, clock)
                    && more[i].1 == value;
            if i < rest.len() {
                assert(rest[i] == more[i]);
            }
            assert(more[i] == last);
        }
        if superseded(more, clock) && !superseded(rest, clock) {
            let i = choose|i: int| 0 <= i < more.len() && after((#[trigger] more[i]).0, clock);
            if i < rest.len() {
                assert(rest[i] == more[i]);
            }
            assert(more[i] == last);
        }
        if holds(before, last.0, last.1) {
            let j = choose|j: int|
                0 <= j < before.len() && crate::counts::same_counts(
                    (#[trigger] before[j]).0,
                    last.0,
                ) && before[j].1 == last.1;
            same_clock_same_order(before[j].0, last.0, clock);
            assert(more[more.len() - 1] == last);
        } else {
            let all = before.push(last);
            assert(all[before.len() as int] == last);
            assert(more[more.len() - 1] == last);
            assert forall|i: int| 0 <= i < before.len() implies all[i] == before[i] by {}
            if holds(before, clock, value) {
                let i = choose|i: int|
                    0 <= i < before.len() && crate::counts::same_counts(
                        (#[trigger] before[i]).0,
                        clock,
                    ) && before[i].1 == value;
                assert(all[i] == before[i]);
            }
            if superseded(before, clock) {
                let i = choose|i: int|
                    0 <= i < before.len() && after((#[trigger] before[i]).0, clock);
                assert(all[i] == before[i]);
            }
        }
    }
}

/// Above every row stands one that nothing supersedes.
proof fn has_latest_above<T>(rows: Seq<(Map<NodeId, u64>, T)>, at: int) -> (top: int)
    requires
        0 <= at < rows.len(),
    ensures
        0 <= top < rows.len(),
        crate::counts::dominates(rows[top].0, rows[at].0),
        !superseded(rows, rows[top].0),
    decreases Set::new(|k: int| 0 <= k < rows.len() && after(rows[k].0, rows[at].0)).len(),
{
    if !superseded(rows, rows[at].0) {
        at
    } else {
        let next = choose|k: int| 0 <= k < rows.len() && after((#[trigger] rows[k]).0, rows[at].0);
        let here = Set::new(|k: int| 0 <= k < rows.len() && after(rows[k].0, rows[at].0));
        let there = Set::new(|k: int| 0 <= k < rows.len() && after(rows[k].0, rows[next].0));
        let range = vstd::set_lib::set_int_range(0, rows.len() as int);
        vstd::set_lib::lemma_int_range(0, rows.len() as int);
        assert(here.subset_of(range));
        vstd::set_lib::lemma_len_subset(here, range);
        assert forall|k: int| there.contains(k) implies here.contains(k) by {
            dominates_transitive(rows[k].0, rows[next].0, rows[at].0);
            if crate::counts::dominates(rows[at].0, rows[k].0) {
                dominates_transitive(rows[at].0, rows[k].0, rows[next].0);
            }
        }
        assert(here.contains(next));
        assert(!there.contains(next));
        assert(there.subset_of(here.remove(next)));
        vstd::set_lib::lemma_len_subset(there, here.remove(next));
        let top = has_latest_above(rows, next);
        dominates_transitive(rows[top].0, rows[next].0, rows[at].0);
        top
    }
}

/// `latest` holds what is not superseded, and supersedes what it was made of supersedes.
proof fn latest_holds<T>(
    rows: Seq<(Map<NodeId, u64>, T)>,
    clock: Map<NodeId, u64>,
    value: T,
)
    ensures
        holds(latest(rows), clock, value) <==> holds(rows, clock, value) && !superseded(
            rows,
            clock,
        ),
        superseded(latest(rows), clock) <==> superseded(rows, clock),
{
    let keep = |row: (Map<NodeId, u64>, T)| !superseded(rows, row.0);
    let kept = rows.filter(keep);
    crate::collections::filter_members(rows, keep);
    if holds(kept, clock, value) {
        let i = choose|i: int|
            0 <= i < kept.len() && crate::counts::same_counts((#[trigger] kept[i]).0, clock)
                && kept[i].1 == value;
        assert(kept.contains(kept[i]));
        assert(rows.contains(kept[i]));
        let j = choose|j: int| 0 <= j < rows.len() && rows[j] == kept[i];
        assert(crate::counts::same_counts(rows[j].0, clock));
        if superseded(rows, clock) {
            let k = choose|k: int| 0 <= k < rows.len() && after((#[trigger] rows[k]).0, clock);
            same_clock_same_order(rows[j].0, clock, rows[k].0);
            assert(after(rows[k].0, kept[i].0));
        }
    }
    if holds(rows, clock, value) && !superseded(rows, clock) {
        let i = choose|i: int|
            0 <= i < rows.len() && crate::counts::same_counts((#[trigger] rows[i]).0, clock)
                && rows[i].1 == value;
        if superseded(rows, rows[i].0) {
            let k = choose|k: int| 0 <= k < rows.len() && after((#[trigger] rows[k]).0, rows[i].0);
            same_clock_same_order(rows[i].0, clock, rows[k].0);
        }
        assert(keep(rows[i]));
        assert(kept.contains(rows[i]));
        let j = choose|j: int| 0 <= j < kept.len() && kept[j] == rows[i];
        assert(crate::counts::same_counts(kept[j].0, clock));
    }
    if superseded(kept, clock) {
        let i = choose|i: int| 0 <= i < kept.len() && after((#[trigger] kept[i]).0, clock);
        assert(kept.contains(kept[i]));
        assert(rows.contains(kept[i]));
        let j = choose|j: int| 0 <= j < rows.len() && rows[j] == kept[i];
        assert(after(rows[j].0, clock));
    }
    if superseded(rows, clock) {
        let i = choose|i: int| 0 <= i < rows.len() && after((#[trigger] rows[i]).0, clock);
        let top = has_latest_above(rows, i);
        dominates_transitive(rows[top].0, rows[i].0, clock);
        if crate::counts::dominates(clock, rows[top].0) {
            dominates_transitive(clock, rows[top].0, rows[i].0);
        }
        assert(keep(rows[top]));
        assert(kept.contains(rows[top]));
        let j = choose|j: int| 0 <= j < kept.len() && kept[j] == rows[top];
        assert(after(kept[j].0, clock));
    }
}

/// A merge holds exactly the writes of both sides that no write of either side supersedes.
pub proof fn merge_holds<T: Clone + PartialEq>(
    a: Seq<(Map<NodeId, u64>, T)>,
    b: Seq<(Map<NodeId, u64>, T)>,
    clock: Map<NodeId, u64>,
    value: T,
)
    ensures
        holds(MVRegister::<T>::join(a, b), clock, value) <==> (holds(a, clock, value) || holds(
            b,
            clock,
            value,
        )) && !superseded(a, clock) && !superseded(b, clock),
        superseded(MVRegister::<T>::join(a, b), clock) <==> superseded(a, clock) || superseded(
            b,
            clock,
        ),
{
    with_new_holds(a, b, clock, value);
    latest_holds(with_new(a, b), clock, value);
}

impl<T: Clone + PartialEq> Crdt for MVRegister<T> {
    type Value = Vec<T>;

    open spec fn lawful() -> bool {
        exact_clone::<T>() && exact_eq::<T>()
    }

    open spec fn same(a: Seq<(Map<NodeId, u64>, T)>, b: Seq<(Map<NodeId, u64>, T)>) -> bool {
        forall|clock: Map<NodeId, u64>, value: T|
            #![trigger holds(a, clock, value)]
            #![trigger holds(b, clock, value)]
            holds(a, clock, value) <==> holds(b, clock, value)
    }

    open spec fn join(
        a: Seq<(Map<NodeId, u64>, T)>,
        b: Seq<(Map<NodeId, u64>, T)>,
    ) -> Seq<(Map<NodeId, u64>, T)> {
        latest(with_new(a, b))
    }

    open spec fn below(a: Seq<(Map<NodeId, u64>, T)>, b: Seq<(Map<NodeId, u64>, T)>) -> bool {
        forall|i: int| 0 <= i < a.len() ==> covered(b, (#[trigger] a[i]).0)
    }

    open spec fn valid(a: Seq<(Map<NodeId, u64>, T)>) -> bool {
        &&& forall|i: int| 0 <= i < a.len() ==> !superseded(a, (#[trigger] a[i]).0)
        &&& distinct(a)
    }

    open spec fn agree(a: Seq<(Map<NodeId, u64>, T)>, b: Seq<(Map<NodeId, u64>, T)>) -> bool {
        true
    }

    open spec fn survives(a: Seq<(Map<NodeId, u64>, T)>, b: Seq<(Map<NodeId, u64>, T)>) -> bool {
        true
    }

    /// Entries with the same clock hold the same value.
    open spec fn adds_only(a: Seq<(Map<NodeId, u64>, T)>, b: Seq<(Map<NodeId, u64>, T)>) -> bool {
        forall|i: int, j: int|
            0 <= i < a.len() && 0 <= j < b.len() && crate::counts::same_counts(
                (#[trigger] a[i]).0,
                (#[trigger] b[j]).0,
            ) ==> a[i].1 == b[j].1
    }

    open spec fn regroupable(
        a: Seq<(Map<NodeId, u64>, T)>,
        b: Seq<(Map<NodeId, u64>, T)>,
        c: Seq<(Map<NodeId, u64>, T)>,
    ) -> bool {
        true
    }

    open spec fn readable(a: Seq<(Map<NodeId, u64>, T)>) -> bool {
        true
    }

    open spec fn reads(a: Seq<(Map<NodeId, u64>, T)>, value: Vec<T>) -> bool {
        value@ == Seq::new(a.len(), |i: int| a[i].1)
    }

    fn replica(&self) -> (copy: Self) {
        self.clone()
    }

    fn value(&self) -> (value: Vec<T>) {
        let mut value: Vec<T> = Vec::new();
        for i in 0..self.entries.len()
            invariant
                value@.len() == i,
                exact_clone::<T>() ==> forall|j: int|
                    0 <= j < i ==> #[trigger] value@[j] == self@[j].1,
        {
            let copy = self.entries[i].1.clone();
            assert(cloned(self.entries@[i as int].1, copy));
            value.push(copy);
        }
        assert(exact_clone::<T>() ==> value@ =~= Seq::new(self@.len(), |i: int| self@[i].1));
        value
    }

    /// Union both entry sets, retaining only entries not dominated by any other.
    fn merge(&mut self, other: Self) {
        let ghost mine = self@;
        let ghost theirs = other@;
        let mut all: Vec<(VectorClock, T)> = Vec::new();
        std::mem::swap(&mut all, &mut self.entries);
        assert(theirs.take(0) =~= Seq::empty());
        for entry in iter: other.entries
            invariant
                theirs == rows_of(iter.seq()),
                Self::lawful() ==> rows_of(all@) == with_new(mine, theirs.take(iter.index())),
        {
            let ghost row = (entry.0@, entry.1);
            let ghost before = rows_of(all@);
            let ghost at = iter.index();
            proof {
                assert(row == theirs[at]);
                assert(theirs.take(at + 1).drop_last() =~= theirs.take(at));
                assert(theirs.take(at + 1).last() == row);
            }
            if !contains_entry(&all, &entry.0, &entry.1) {
                all.push(entry);
                assert(rows_of(all@) =~= before.push(row));
            }
        }
        assert(theirs.take(theirs.len() as int) =~= theirs);
        self.entries = latest_entries(&all);
    }

    /// Returns true if every entry in self is dominated by or equal to some entry in other.
    fn compare(&self, other: &Self) -> (included: bool)
        ensures
            included == Self::below(self@, other@),
    {
        for i in 0..self.entries.len()
            invariant
                forall|k: int| 0 <= k < i ==> covered(other@, (#[trigger] self@[k]).0),
        {
            assert(self@[i as int].0 == self.entries@[i as int].0@);
            let mut found = false;
            for j in 0..other.entries.len()
                invariant
                    0 <= i < self.entries@.len(),
                    found == exists|m: int|
                        0 <= m < j && crate::counts::dominates(
                            (#[trigger] other@[m]).0,
                            self@[i as int].0,
                        ),
            {
                assert(other@[j as int].0 == other.entries@[j as int].0@);
                let order = other.entries[j].0.partial_order(&self.entries[i].0);
                if order == ClockOrder::After || order == ClockOrder::Equal {
                    found = true;
                }
            }
            if !found {
                return false;
            }
        }
        true
    }

    proof fn merge_commutative(a: Seq<(Map<NodeId, u64>, T)>, b: Seq<(Map<NodeId, u64>, T)>) {
        assert forall|clock: Map<NodeId, u64>, value: T| holds(Self::join(a, b), clock, value)
            <==> holds(
            Self::join(b, a),
            clock,
            value,
        ) by {
            merge_holds(a, b, clock, value);
            merge_holds(b, a, clock, value);
        }
    }

    proof fn merge_associative(
        a: Seq<(Map<NodeId, u64>, T)>,
        b: Seq<(Map<NodeId, u64>, T)>,
        c: Seq<(Map<NodeId, u64>, T)>,
    ) {
        let left = Self::join(Self::join(a, b), c);
        let right = Self::join(a, Self::join(b, c));
        assert forall|clock: Map<NodeId, u64>, value: T| holds(left, clock, value) <==> holds(
            right,
            clock,
            value,
        ) by {
            merge_holds(a, b, clock, value);
            merge_holds(b, c, clock, value);
            merge_holds(Self::join(a, b), c, clock, value);
            merge_holds(a, Self::join(b, c), clock, value);
        }
    }

    proof fn merge_idempotent(a: Seq<(Map<NodeId, u64>, T)>) {
        assert forall|clock: Map<NodeId, u64>, value: T| holds(Self::join(a, a), clock, value)
            <==> holds(
            a,
            clock,
            value,
        ) by {
            merge_holds(a, a, clock, value);
            valid_holds_latest(a, clock, value);
        }
    }

    proof fn merge_keeps_valid(a: Seq<(Map<NodeId, u64>, T)>, b: Seq<(Map<NodeId, u64>, T)>) {
        merge_is_valid::<T>(a, b);
    }

    proof fn merge_includes(a: Seq<(Map<NodeId, u64>, T)>, b: Seq<(Map<NodeId, u64>, T)>) {
        merge_dominates_row::<T>(a, b);
        merge_dominates_row::<T>(b, a);
    }

    proof fn compare_reflexive(a: Seq<(Map<NodeId, u64>, T)>) {
        assert forall|i: int| 0 <= i < a.len() implies covered(a, (#[trigger] a[i]).0) by {
            assert(crate::counts::dominates(a[i].0, a[i].0));
        }
    }

    proof fn compare_transitive(
        a: Seq<(Map<NodeId, u64>, T)>,
        b: Seq<(Map<NodeId, u64>, T)>,
        c: Seq<(Map<NodeId, u64>, T)>,
    ) {
        assert forall|i: int| 0 <= i < a.len() implies covered(c, (#[trigger] a[i]).0) by {
            let j = choose|j: int|
                0 <= j < b.len() && crate::counts::dominates((#[trigger] b[j]).0, a[i].0);
            assert(covered(c, b[j].0));
            let k = choose|k: int|
                0 <= k < c.len() && crate::counts::dominates((#[trigger] c[k]).0, b[j].0);
            dominates_transitive(c[k].0, b[j].0, a[i].0);
        }
    }

    proof fn compare_means_included(
        a: Seq<(Map<NodeId, u64>, T)>,
        b: Seq<(Map<NodeId, u64>, T)>,
    ) {
        let joined = Self::join(a, b);
        assert forall|clock: Map<NodeId, u64>, value: T| holds(joined, clock, value) <==> holds(
            b,
            clock,
            value,
        ) by {
            merge_holds(a, b, clock, value);
            valid_holds_latest(b, clock, value);
            if holds(a, clock, value) && !superseded(b, clock) {
                let i = choose|i: int|
                    0 <= i < a.len() && crate::counts::same_counts((#[trigger] a[i]).0, clock)
                        && a[i].1 == value;
                let j = choose|j: int|
                    0 <= j < b.len() && crate::counts::dominates((#[trigger] b[j]).0, a[i].0);
                same_clock_same_order(a[i].0, clock, b[j].0);
                assert(!after(b[j].0, clock));
                crate::counts::same_means_both(b[j].0, clock);
                same_clock_same_order(b[j].0, clock, a[i].0);
                assert(crate::counts::same_counts(a[i].0, b[j].0));
                assert(b[j].1 == value);
            }
            if holds(b, clock, value) && superseded(a, clock) {
                let i = choose|i: int| 0 <= i < a.len() && after((#[trigger] a[i]).0, clock);
                let j = choose|j: int|
                    0 <= j < b.len() && crate::counts::dominates((#[trigger] b[j]).0, a[i].0);
                dominates_transitive(b[j].0, a[i].0, clock);
                if crate::counts::dominates(clock, b[j].0) {
                    dominates_transitive(clock, b[j].0, a[i].0);
                }
                assert(after(b[j].0, clock));
                assert(superseded(b, clock));
            }
        }
    }
}

/// In a valid register nothing that it holds is superseded.
proof fn valid_holds_latest<T: Clone + PartialEq>(
    a: Seq<(Map<NodeId, u64>, T)>,
    clock: Map<NodeId, u64>,
    value: T,
)
    requires
        MVRegister::<T>::valid(a),
    ensures
        holds(a, clock, value) ==> !superseded(a, clock),
{
    if holds(a, clock, value) && superseded(a, clock) {
        let i = choose|i: int|
            0 <= i < a.len() && crate::counts::same_counts((#[trigger] a[i]).0, clock) && a[i].1
                == value;
        let k = choose|k: int| 0 <= k < a.len() && after((#[trigger] a[k]).0, clock);
        same_clock_same_order(a[i].0, clock, a[k].0);
        assert(after(a[k].0, a[i].0));
        assert(superseded(a, a[i].0));
    }
}

/// A filter keeps rows distinct.
proof fn filter_keeps_distinct<T>(
    rows: Seq<(Map<NodeId, u64>, T)>,
    keep: spec_fn((Map<NodeId, u64>, T)) -> bool,
)
    requires
        distinct(rows),
    ensures
        distinct(rows.filter(keep)),
    decreases rows.len(),
{
    reveal(Seq::filter);
    if rows.len() > 0 {
        let rest = rows.drop_last();
        let last = rows.last();
        assert(distinct(rest)) by {
            assert forall|i: int, j: int| 0 <= i < j < rest.len() implies !(
            crate::counts::same_counts((#[trigger] rest[i]).0, (#[trigger] rest[j]).0)
                && rest[i].1 == rest[j].1) by {
                assert(rest[i] == rows[i] && rest[j] == rows[j]);
            }
        }
        filter_keeps_distinct(rest, keep);
        if keep(last) {
            let kept = rest.filter(keep);
            let all = kept.push(last);
            crate::collections::filter_members(rest, keep);
            assert forall|i: int, j: int| 0 <= i < j < all.len() implies !(
            crate::counts::same_counts((#[trigger] all[i]).0, (#[trigger] all[j]).0) && all[i].1
                == all[j].1) by {
                assert(all[i] == kept[i]);
                if j < kept.len() {
                    assert(all[j] == kept[j]);
                } else {
                    assert(kept.contains(kept[i]));
                    let k = choose|k: int| 0 <= k < rest.len() && rest[k] == kept[i];
                    assert(rows[k] == kept[i] && rows[rows.len() - 1] == last);
                }
            }
        }
    }
}

/// What is added to distinct rows is distinct.
proof fn with_new_distinct<T>(
    rows: Seq<(Map<NodeId, u64>, T)>,
    more: Seq<(Map<NodeId, u64>, T)>,
)
    requires
        distinct(rows),
    ensures
        distinct(with_new(rows, more)),
    decreases more.len(),
{
    if more.len() > 0 {
        let before = with_new(rows, more.drop_last());
        with_new_distinct(rows, more.drop_last());
        let last = more.last();
        if !holds(before, last.0, last.1) {
            let all = before.push(last);
            assert forall|i: int, j: int| 0 <= i < j < all.len() implies !(
            crate::counts::same_counts((#[trigger] all[i]).0, (#[trigger] all[j]).0) && all[i].1
                == all[j].1) by {
                assert(all[i] == before[i]);
                if j < before.len() {
                    assert(all[j] == before[j]);
                }
            }
        }
    }
}

/// Valid registers that hold the same writes are equal under `==`, whatever order they keep
/// them in.
pub proof fn same_writes_are_equal<T: Clone + PartialEq>(
    a: Seq<(Map<NodeId, u64>, T)>,
    b: Seq<(Map<NodeId, u64>, T)>,
)
    requires
        MVRegister::<T>::valid(a),
        MVRegister::<T>::valid(b),
        MVRegister::<T>::same(a, b),
    ensures
        a.len() == b.len(),
        forall|i: int| 0 <= i < a.len() ==> holds(b, (#[trigger] a[i]).0, a[i].1),
{
    assert forall|i: int| 0 <= i < a.len() implies holds(b, (#[trigger] a[i]).0, a[i].1) by {
        assert(crate::counts::same_counts(a[i].0, a[i].0));
        assert(holds(a, a[i].0, a[i].1));
    }
    assert forall|i: int| 0 <= i < b.len() implies holds(a, (#[trigger] b[i]).0, b[i].1) by {
        assert(crate::counts::same_counts(b[i].0, b[i].0));
        assert(holds(b, b[i].0, b[i].1));
    }
    held_is_no_longer(a, b);
    held_is_no_longer(b, a);
}

/// Distinct rows that are all among `b` are no more than those of `b`.
proof fn held_is_no_longer<T>(
    a: Seq<(Map<NodeId, u64>, T)>,
    b: Seq<(Map<NodeId, u64>, T)>,
)
    requires
        distinct(a),
        forall|i: int| 0 <= i < a.len() ==> holds(b, (#[trigger] a[i]).0, a[i].1),
    ensures
        a.len() <= b.len(),
{
    let place = |i: int|
        choose|j: int|
            0 <= j < b.len() && crate::counts::same_counts((#[trigger] b[j]).0, a[i].0) && b[j].1
                == a[i].1;
    let indices = vstd::set_lib::set_int_range(0, a.len() as int);
    let places = vstd::set_lib::set_int_range(0, b.len() as int);
    vstd::set_lib::lemma_int_range(0, a.len() as int);
    vstd::set_lib::lemma_int_range(0, b.len() as int);
    assert forall|i: int| #[trigger] indices.contains(i) implies {
        let j = place(i);
        &&& places.contains(j)
        &&& crate::counts::same_counts(b[j].0, a[i].0)
        &&& b[j].1 == a[i].1
    } by {
        assert(holds(b, a[i].0, a[i].1));
    }
    assert forall|i: int, k: int|
        #![trigger place(i), place(k)]
        indices.contains(i) && indices.contains(k) && place(i) == place(k) implies i == k by {
        let j = place(i);
        same_clock_same_order(b[j].0, a[i].0, a[k].0);
        same_clock_same_order(b[j].0, a[k].0, a[i].0);
        if i < k {
            assert(crate::counts::same_counts(a[i].0, a[k].0));
        } else if k < i {
            assert(crate::counts::same_counts(a[k].0, a[i].0));
        }
    }
    let image = indices.map(place);
    vstd::set_lib::lemma_map_size(indices, image, place);
    assert(image.subset_of(places));
    vstd::set_lib::lemma_len_subset(image, places);
}

/// A merge into a valid register is valid, whatever is merged.
pub proof fn merge_is_valid<T: Clone + PartialEq>(
    a: Seq<(Map<NodeId, u64>, T)>,
    b: Seq<(Map<NodeId, u64>, T)>,
)
    requires
        distinct(a),
    ensures
        MVRegister::<T>::valid(MVRegister::<T>::join(a, b)),
{
    let all = with_new(a, b);
    let joined = MVRegister::<T>::join(a, b);
    let keep = |row: (Map<NodeId, u64>, T)| !superseded(all, row.0);
    with_new_distinct(a, b);
    filter_keeps_distinct(all, keep);
    crate::collections::filter_members(all, keep);
    assert forall|i: int| 0 <= i < joined.len() implies
        !superseded(joined, (#[trigger] joined[i]).0) by {
        assert(joined.contains(joined[i]));
        latest_holds(all, joined[i].0, joined[i].1);
    }
}

/// Every row of either side is dominated by a row of the merge.
proof fn merge_dominates_row<T: Clone + PartialEq>(
    a: Seq<(Map<NodeId, u64>, T)>,
    b: Seq<(Map<NodeId, u64>, T)>,
)
    ensures
        MVRegister::<T>::below(a, MVRegister::<T>::join(a, b)),
        MVRegister::<T>::below(b, MVRegister::<T>::join(a, b)),
{
    let joined = MVRegister::<T>::join(a, b);
    assert forall|clock: Map<NodeId, u64>, value: T|
        #![trigger holds(a, clock, value)]
        #![trigger holds(b, clock, value)]
        holds(a, clock, value) || holds(b, clock, value) implies covered(joined, clock) by {
        merge_holds(a, b, clock, value);
        if superseded(joined, clock) {
            let j = choose|j: int| 0 <= j < joined.len() && after((#[trigger] joined[j]).0, clock);
            assert(crate::counts::dominates(joined[j].0, clock));
        } else {
            let j = choose|j: int|
                0 <= j < joined.len() && crate::counts::same_counts((#[trigger] joined[j]).0, clock)
                    && joined[j].1 == value;
            crate::counts::same_means_both(joined[j].0, clock);
            assert(crate::counts::dominates(joined[j].0, clock));
        }
    }
    assert forall|i: int| 0 <= i < a.len() implies covered(joined, (#[trigger] a[i]).0) by {
        assert(crate::counts::same_counts(a[i].0, a[i].0));
        assert(holds(a, a[i].0, a[i].1));
    }
    assert forall|i: int| 0 <= i < b.len() implies covered(joined, (#[trigger] b[i]).0) by {
        assert(crate::counts::same_counts(b[i].0, b[i].0));
        assert(holds(b, b[i].0, b[i].1));
    }
}

/// A write keeps the register valid, and the register then holds the write or one that happened
/// after it. What was concurrent with the write stays.
pub proof fn write_keeps_valid<T: Clone + PartialEq>(
    a: Seq<(Map<NodeId, u64>, T)>,
    value: T,
    clock: Map<NodeId, u64>,
)
    requires
        MVRegister::<T>::valid(a),
    ensures
        MVRegister::<T>::valid(written(a, value, clock)),
        holds(written(a, value, clock), clock, value) || superseded(
            written(a, value, clock),
            clock,
        ),
        forall|i: int|
            0 <= i < a.len() && !crate::counts::dominates(clock, (#[trigger] a[i]).0) ==> holds(
                written(a, value, clock),
                a[i].0,
                a[i].1,
            ),
{
    let keep = |row: (Map<NodeId, u64>, T)| !crate::counts::dominates(clock, row.0);
    let kept = a.filter(keep);
    let result = written(a, value, clock);
    crate::collections::filter_members(a, keep);
    filter_keeps_distinct(a, keep);
    assert(distinct(result)) by {
        assert forall|i: int, j: int| 0 <= i < j < result.len() implies !(
        crate::counts::same_counts((#[trigger] result[i]).0, (#[trigger] result[j]).0)
            && result[i].1 == result[j].1) by {
            assert(result[i] == kept[i]);
            assert(kept.contains(kept[i]));
            if j < kept.len() {
                assert(result[j] == kept[j]);
            } else {
                assert(keep(kept[i]));
                crate::counts::same_means_both(kept[i].0, clock);
            }
        }
    }
    assert forall|i: int| 0 <= i < result.len() implies !superseded(
        result,
        (#[trigger] result[i]).0,
    ) by {
        if superseded(result, result[i].0) {
            let k = choose|k: int|
                0 <= k < result.len() && after((#[trigger] result[k]).0, result[i].0);
            if k < kept.len() {
                assert(result[k] == kept[k]);
                assert(kept.contains(kept[k]));
                if i < kept.len() {
                    assert(result[i] == kept[i]);
                    assert(kept.contains(kept[i]));
                    let m = choose|m: int| 0 <= m < a.len() && a[m] == kept[i];
                    let n = choose|n: int| 0 <= n < a.len() && a[n] == kept[k];
                    assert(after(a[n].0, a[m].0));
                    assert(superseded(a, a[m].0));
                } else {
                    assert(result[i] == (clock, value));
                    assert(after(kept[k].0, clock));
                    assert(superseded(kept, clock));
                }
            } else {
                assert(result[k] == (clock, value));
                if i < kept.len() {
                    assert(result[i] == kept[i]);
                    assert(kept.contains(kept[i]));
                    assert(keep(kept[i]));
                }
            }
        }
    }
    if !superseded(kept, clock) {
        assert(result[kept.len() as int] == (clock, value));
        assert(crate::counts::same_counts(clock, clock));
    }
    assert forall|i: int| 0 <= i < a.len()
        && !crate::counts::dominates(clock, (#[trigger] a[i]).0) implies holds(
        result,
        a[i].0,
        a[i].1,
    ) by {
        assert(keep(a[i]));
        assert(kept.contains(a[i]));
        let j = choose|j: int| 0 <= j < kept.len() && kept[j] == a[i];
        assert(result[j] == a[i]);
        assert(crate::counts::same_counts(a[i].0, a[i].0));
    }
}

/// Equal clocks are seen by the same clocks.
proof fn same_clock_same_seen(
    a: Map<NodeId, u64>,
    b: Map<NodeId, u64>,
    clocks: Seq<Map<NodeId, u64>>,
)
    requires
        crate::counts::same_counts(a, b),
    ensures
        seen(clocks, a) == seen(clocks, b),
{
    if seen(clocks, a) {
        let i = choose|i: int|
            0 <= i < clocks.len() && crate::counts::dominates(#[trigger] clocks[i], a);
        same_clock_same_order(a, b, clocks[i]);
    }
    if seen(clocks, b) {
        let i = choose|i: int|
            0 <= i < clocks.len() && crate::counts::dominates(#[trigger] clocks[i], b);
        same_clock_same_order(a, b, clocks[i]);
    }
}

/// What is seen by clocks that are all seen is seen.
proof fn seen_transitive(
    u: Seq<Map<NodeId, u64>>,
    v: Seq<Map<NodeId, u64>>,
    clock: Map<NodeId, u64>,
)
    requires
        forall|i: int| 0 <= i < v.len() ==> seen(u, #[trigger] v[i]),
        seen(v, clock),
    ensures
        seen(u, clock),
{
    let i = choose|i: int| 0 <= i < v.len() && crate::counts::dominates(#[trigger] v[i], clock);
    let j = choose|j: int| 0 <= j < u.len() && crate::counts::dominates(#[trigger] u[j], v[i]);
    dominates_transitive(u[j], v[i], clock);
}

/// The clocks of the rows have seen what the rows cover.
proof fn clocks_see_covered<T>(rows: Seq<(Map<NodeId, u64>, T)>, clock: Map<NodeId, u64>)
    ensures
        seen(clocks_of(rows), clock) <==> covered(rows, clock),
{
    let clocks = clocks_of(rows);
    if covered(rows, clock) {
        let i = choose|i: int|
            0 <= i < rows.len() && crate::counts::dominates((#[trigger] rows[i]).0, clock);
        assert(clocks[i] == rows[i].0);
    }
    if seen(clocks, clock) {
        let i = choose|i: int|
            0 <= i < clocks.len() && crate::counts::dominates(#[trigger] clocks[i], clock);
        assert(clocks[i] == rows[i].0);
    }
}

/// `unseen` holds what is not seen.
proof fn unseen_holds<T>(
    rows: Seq<(Map<NodeId, u64>, T)>,
    since: Seq<Map<NodeId, u64>>,
    clock: Map<NodeId, u64>,
    value: T,
)
    ensures
        holds(unseen(rows, since), clock, value) <==> holds(rows, clock, value) && !seen(
            since,
            clock,
        ),
        superseded(unseen(rows, since), clock) <==> exists|i: int|
            0 <= i < rows.len() && after((#[trigger] rows[i]).0, clock) && !seen(since, rows[i].0),
{
    let keep = |row: (Map<NodeId, u64>, T)| !seen(since, row.0);
    let kept = rows.filter(keep);
    crate::collections::filter_members(rows, keep);
    if holds(kept, clock, value) {
        let i = choose|i: int|
            0 <= i < kept.len() && crate::counts::same_counts((#[trigger] kept[i]).0, clock)
                && kept[i].1 == value;
        assert(kept.contains(kept[i]));
        let j = choose|j: int| 0 <= j < rows.len() && rows[j] == kept[i];
        assert(crate::counts::same_counts(rows[j].0, clock));
        same_clock_same_seen(rows[j].0, clock, since);
    }
    if holds(rows, clock, value) && !seen(since, clock) {
        let i = choose|i: int|
            0 <= i < rows.len() && crate::counts::same_counts((#[trigger] rows[i]).0, clock)
                && rows[i].1 == value;
        same_clock_same_seen(rows[i].0, clock, since);
        assert(keep(rows[i]));
        assert(kept.contains(rows[i]));
        let j = choose|j: int| 0 <= j < kept.len() && kept[j] == rows[i];
        assert(crate::counts::same_counts(kept[j].0, clock));
    }
    if superseded(kept, clock) {
        let i = choose|i: int| 0 <= i < kept.len() && after((#[trigger] kept[i]).0, clock);
        assert(kept.contains(kept[i]));
        let j = choose|j: int| 0 <= j < rows.len() && rows[j] == kept[i];
        assert(after(rows[j].0, clock));
    }
    if exists|i: int|
        0 <= i < rows.len() && after((#[trigger] rows[i]).0, clock) && !seen(since, rows[i].0) {
        let i = choose|i: int|
            0 <= i < rows.len() && after((#[trigger] rows[i]).0, clock) && !seen(since, rows[i].0);
        assert(keep(rows[i]));
        assert(kept.contains(rows[i]));
        let j = choose|j: int| 0 <= j < kept.len() && kept[j] == rows[i];
        assert(after(kept[j].0, clock));
    }
}

impl<T: Clone + PartialEq> DeltaCrdt for MVRegister<T> {
    /// Delta is itself an `MVRegister` carrying only the entries the receiver hasn't yet
    /// observed.
    type Delta = MVRegister<T>;

    /// The clocks of the entries. Their join would not do: it can dominate the clock of a write
    /// that no entry dominates, one that the receiver has not observed.
    type Version = Vec<VectorClock>;

    type DeltaModel = Seq<(Map<NodeId, u64>, T)>;

    type VersionModel = Seq<Map<NodeId, u64>>;

    open spec fn delta_model(delta: MVRegister<T>) -> Seq<(Map<NodeId, u64>, T)> {
        delta@
    }

    open spec fn version_model(version: Vec<VectorClock>) -> Seq<Map<NodeId, u64>> {
        clock_models(version@)
    }

    open spec fn version_of(a: Seq<(Map<NodeId, u64>, T)>) -> Seq<Map<NodeId, u64>> {
        clocks_of(a)
    }

    open spec fn delta_of(
        a: Seq<(Map<NodeId, u64>, T)>,
        since: Seq<Map<NodeId, u64>>,
    ) -> Seq<(Map<NodeId, u64>, T)> {
        unseen(a, since)
    }

    open spec fn absorb(
        a: Seq<(Map<NodeId, u64>, T)>,
        delta: Seq<(Map<NodeId, u64>, T)>,
    ) -> Seq<(Map<NodeId, u64>, T)> {
        Self::join(a, delta)
    }

    open spec fn vacuous(delta: Seq<(Map<NodeId, u64>, T)>) -> bool {
        delta.len() == 0
    }

    open spec fn is_versioned(a: Seq<(Map<NodeId, u64>, T)>) -> bool {
        true
    }

    open spec fn covers(current: Seq<Map<NodeId, u64>>, other: Seq<Map<NodeId, u64>>) -> bool {
        forall|i: int| 0 <= i < other.len() ==> seen(current, #[trigger] other[i])
    }

    open spec fn bridges(
        sender: Seq<(Map<NodeId, u64>, T)>,
        since: Seq<Map<NodeId, u64>>,
        receiver: Seq<(Map<NodeId, u64>, T)>,
    ) -> bool {
        true
    }

    open spec fn delta_agree(
        d: Seq<(Map<NodeId, u64>, T)>,
        e: Seq<(Map<NodeId, u64>, T)>,
    ) -> bool {
        true
    }

    open spec fn delta_valid(d: Seq<(Map<NodeId, u64>, T)>) -> bool {
        true
    }

    fn copy_version(version: &Vec<VectorClock>) -> (copy: Vec<VectorClock>) {
        let mut copy: Vec<VectorClock> = Vec::new();
        for i in 0..version.len()
            invariant
                clock_models(copy@) == clock_models(version@).take(i as int),
        {
            let ghost before = clock_models(copy@);
            copy.push(version[i].clone());
            assert(clock_models(copy@) =~= before.push(version@[i as int]@));
            assert(clock_models(copy@) =~= clock_models(version@).take(i + 1));
        }
        assert(clock_models(copy@) =~= clock_models(version@));
        copy
    }

    fn version(&self) -> (version: Vec<VectorClock>) {
        let mut clocks: Vec<VectorClock> = Vec::new();
        for i in 0..self.entries.len()
            invariant
                clock_models(clocks@) == clocks_of(self@).take(i as int),
        {
            let ghost before = clock_models(clocks@);
            clocks.push(self.entries[i].0.clone());
            assert(clock_models(clocks@) =~= before.push(self@[i as int].0));
            assert(clock_models(clocks@) =~= clocks_of(self@).take(i + 1));
        }
        assert(clock_models(clocks@) =~= clocks_of(self@));
        clocks
    }

    /// Includes the entries whose clock has, beside each clock of `since`, at least one component
    /// strictly greater, i.e. none of them dominates it.
    fn delta_since(&self, since: &Vec<VectorClock>) -> (delta: MVRegister<T>) {
        MVRegister { entries: unseen_entries(&self.entries, since) }
    }

    fn merge_delta(&mut self, delta: MVRegister<T>) {
        self.merge(delta);
    }

    fn is_empty_delta(delta: &MVRegister<T>) -> (empty: bool) {
        delta.entries.is_empty()
    }

    fn version_includes(current: &Vec<VectorClock>, other: &Vec<VectorClock>) -> (included: bool) {
        let ghost models = clock_models(other@);
        for i in 0..other.len()
            invariant
                models == clock_models(other@),
                forall|j: int| 0 <= j < i ==> seen(clock_models(current@), #[trigger] models[j]),
        {
            assert(models[i as int] == other@[i as int]@);
            if !is_seen(current, &other[i]) {
                return false;
            }
        }
        true
    }

    proof fn delta_catches_up(
        sender: Seq<(Map<NodeId, u64>, T)>,
        since: Seq<Map<NodeId, u64>>,
        receiver: Seq<(Map<NodeId, u64>, T)>,
    ) {
        let delta = unseen(sender, since);
        let joined = Self::join(receiver, delta);
        merge_dominates_row::<T>(receiver, delta);
        assert forall|i: int| 0 <= i < sender.len() implies covered(
            joined,
            (#[trigger] sender[i]).0,
        ) by {
            let clock = sender[i].0;
            assert(crate::counts::same_counts(clock, clock));
            assert(holds(sender, clock, sender[i].1));
            unseen_holds(sender, since, clock, sender[i].1);
            if seen(since, clock) {
                seen_transitive(clocks_of(receiver), since, clock);
                clocks_see_covered(receiver, clock);
                let j = choose|j: int|
                    0 <= j < receiver.len() && crate::counts::dominates(
                        (#[trigger] receiver[j]).0,
                        clock,
                    );
                assert(covered(joined, receiver[j].0));
                let k = choose|k: int|
                    0 <= k < joined.len() && crate::counts::dominates(
                        (#[trigger] joined[k]).0,
                        receiver[j].0,
                    );
                dominates_transitive(joined[k].0, receiver[j].0, clock);
            } else {
                let j = choose|j: int|
                    0 <= j < delta.len()
                        && crate::counts::same_counts((#[trigger] delta[j]).0, clock)
                        && delta[j].1 == sender[i].1;
                assert(covered(joined, delta[j].0));
                let k = choose|k: int|
                    0 <= k < joined.len() && crate::counts::dominates(
                        (#[trigger] joined[k]).0,
                        delta[j].0,
                    );
                same_clock_same_order(delta[j].0, clock, joined[k].0);
            }
        }
    }

    proof fn delta_is_merge(
        sender: Seq<(Map<NodeId, u64>, T)>,
        since: Seq<Map<NodeId, u64>>,
        receiver: Seq<(Map<NodeId, u64>, T)>,
    ) {
        let delta = unseen(sender, since);
        assert forall|clock: Map<NodeId, u64>, value: T| holds(Self::join(receiver, delta), clock, value)
            <==> holds(Self::join(receiver, sender), clock, value) by {
            merge_holds(receiver, delta, clock, value);
            merge_holds(receiver, sender, clock, value);
            unseen_holds(sender, since, clock, value);
            if superseded(sender, clock) && !superseded(delta, clock) {
                let i = choose|i: int|
                    0 <= i < sender.len() && after((#[trigger] sender[i]).0, clock);
                assert(seen(since, sender[i].0));
                seen_transitive(clocks_of(receiver), since, sender[i].0);
                clocks_see_covered(receiver, sender[i].0);
                let j = choose|j: int|
                    0 <= j < receiver.len() && crate::counts::dominates(
                        (#[trigger] receiver[j]).0,
                        sender[i].0,
                    );
                dominates_transitive(receiver[j].0, sender[i].0, clock);
                if crate::counts::dominates(clock, receiver[j].0) {
                    dominates_transitive(clock, receiver[j].0, sender[i].0);
                }
                assert(after(receiver[j].0, clock));
                assert(superseded(receiver, clock));
            }
            if holds(sender, clock, value) && seen(since, clock) {
                let i = choose|i: int|
                    0 <= i < sender.len() && crate::counts::same_counts(
                        (#[trigger] sender[i]).0,
                        clock,
                    ) && sender[i].1 == value;
                same_clock_same_seen(sender[i].0, clock, since);
                seen_transitive(clocks_of(receiver), since, sender[i].0);
                clocks_see_covered(receiver, sender[i].0);
                let j = choose|j: int|
                    0 <= j < receiver.len() && crate::counts::dominates(
                        (#[trigger] receiver[j]).0,
                        sender[i].0,
                    );
                same_clock_same_order(sender[i].0, clock, receiver[j].0);
                if !after(receiver[j].0, clock) {
                    crate::counts::same_means_both(receiver[j].0, clock);
                    same_clock_same_order(receiver[j].0, clock, sender[i].0);
                    assert(crate::counts::same_counts(sender[i].0, receiver[j].0));
                    assert(receiver[j].1 == value);
                    assert(holds(receiver, clock, value));
                }
            }
            if superseded(delta, clock) {
                let i = choose|i: int|
                    0 <= i < sender.len() && after((#[trigger] sender[i]).0, clock)
                        && !seen(since, sender[i].0);
                assert(superseded(sender, clock));
            }
        }
    }

    proof fn delta_commutative(
        a: Seq<(Map<NodeId, u64>, T)>,
        d: Seq<(Map<NodeId, u64>, T)>,
        e: Seq<(Map<NodeId, u64>, T)>,
    ) {
        let left = Self::join(Self::join(a, d), e);
        let right = Self::join(Self::join(a, e), d);
        assert forall|clock: Map<NodeId, u64>, value: T| holds(left, clock, value) <==> holds(
            right,
            clock,
            value,
        ) by {
            merge_holds(a, d, clock, value);
            merge_holds(a, e, clock, value);
            merge_holds(Self::join(a, d), e, clock, value);
            merge_holds(Self::join(a, e), d, clock, value);
        }
    }

    proof fn delta_idempotent(a: Seq<(Map<NodeId, u64>, T)>, d: Seq<(Map<NodeId, u64>, T)>) {
        let once = Self::join(a, d);
        assert forall|clock: Map<NodeId, u64>, value: T| holds(Self::join(once, d), clock, value)
            <==> holds(once, clock, value) by {
            merge_holds(a, d, clock, value);
            merge_holds(once, d, clock, value);
        }
    }

    proof fn delta_keeps_valid(a: Seq<(Map<NodeId, u64>, T)>, d: Seq<(Map<NodeId, u64>, T)>) {
        merge_is_valid::<T>(a, d);
    }

    proof fn delta_of_is_valid(a: Seq<(Map<NodeId, u64>, T)>, since: Seq<Map<NodeId, u64>>) {
    }

    proof fn empty_delta_changes_nothing(
        a: Seq<(Map<NodeId, u64>, T)>,
        d: Seq<(Map<NodeId, u64>, T)>,
    ) {
        assert forall|clock: Map<NodeId, u64>, value: T| holds(Self::join(a, d), clock, value)
            <==> holds(
            a,
            clock,
            value,
        ) by {
            merge_holds(a, d, clock, value);
            valid_holds_latest(a, clock, value);
        }
    }

    proof fn delta_since_own_version_is_empty(a: Seq<(Map<NodeId, u64>, T)>) {
        let since = clocks_of(a);
        let delta = unseen(a, since);
        crate::collections::filter_members(
            a,
            |row: (Map<NodeId, u64>, T)| !seen(since, row.0),
        );
        if delta.len() > 0 {
            assert(delta.contains(delta[0]));
            let i = choose|i: int| 0 <= i < a.len() && a[i] == delta[0];
            assert(since[i] == a[i].0);
        }
    }

    proof fn version_includes_itself(v: Seq<Map<NodeId, u64>>) {
        assert forall|i: int| 0 <= i < v.len() implies seen(v, #[trigger] v[i]) by {
            assert(crate::counts::dominates(v[i], v[i]));
        }
    }

    proof fn version_includes_transitive(
        u: Seq<Map<NodeId, u64>>,
        v: Seq<Map<NodeId, u64>>,
        w: Seq<Map<NodeId, u64>>,
    ) {
        assert forall|i: int| 0 <= i < w.len() implies seen(u, #[trigger] w[i]) by {
            seen_transitive(u, v, w[i]);
        }
    }

    proof fn merge_advances_version(
        a: Seq<(Map<NodeId, u64>, T)>,
        b: Seq<(Map<NodeId, u64>, T)>,
    ) {
        let joined = Self::join(a, b);
        merge_dominates_row::<T>(a, b);
        assert forall|i: int| 0 <= i < clocks_of(a).len() implies seen(
            clocks_of(joined),
            #[trigger] clocks_of(a)[i],
        ) by {
            assert(covered(joined, a[i].0));
            clocks_see_covered(joined, a[i].0);
        }
        assert forall|i: int| 0 <= i < clocks_of(b).len() implies seen(
            clocks_of(joined),
            #[trigger] clocks_of(b)[i],
        ) by {
            assert(covered(joined, b[i].0));
            clocks_see_covered(joined, b[i].0);
        }
    }
}

/// What a register holds, by its rows: writes at equal clocks are at the same time, and one write is
/// after another where its clock has at least as much of every node and more of some.
pub proof fn writes_by_rows<T>(
    rows: Seq<(Map<NodeId, u64>, T)>,
    a: Map<NodeId, u64>,
    b: Map<NodeId, u64>,
    value: T,
    i: int,
)
    ensures
        0 <= i < rows.len() ==> holds(rows, rows[i].0, rows[i].1),
        0 <= i < rows.len() && after(rows[i].0, a) ==> superseded(rows, a),
        after(a, b) <==> crate::counts::dominates(a, b) && !crate::counts::dominates(b, a),
        (forall|j: int|
            0 <= j < rows.len() ==> !(crate::counts::same_counts((#[trigger] rows[j]).0, a)
                && rows[j].1 == value)) ==> !holds(rows, a, value),
        (forall|j: int| 0 <= j < rows.len() ==> !after((#[trigger] rows[j]).0, a)) ==> !superseded(
            rows,
            a,
        ),
{
    if 0 <= i < rows.len() {
        assert(crate::counts::same_counts(rows[i].0, rows[i].0));
    }
}

/// A write replaces what its clock dominates and leaves every other write; it is held itself unless
/// a write that is there happened after it. Nothing else is held.
pub proof fn write_replaces_what_it_dominates<T: Clone + PartialEq>(
    rows: Seq<(Map<NodeId, u64>, T)>,
    value: T,
    clock: Map<NodeId, u64>,
    c: Map<NodeId, u64>,
    v: T,
)
    ensures
        holds(written(rows, value, clock), c, v) <==> (holds(rows, c, v)
            && !crate::counts::dominates(clock, c)) || (crate::counts::same_counts(clock, c) && v
            == value && !superseded(rows, clock)),
{
    let keep = |row: (Map<NodeId, u64>, T)| !crate::counts::dominates(clock, row.0);
    let kept = rows.filter(keep);
    let result = written(rows, value, clock);
    crate::collections::filter_members(rows, keep);
    assert(superseded(kept, clock) <==> superseded(rows, clock)) by {
        if superseded(kept, clock) {
            let i = choose|i: int| 0 <= i < kept.len() && after((#[trigger] kept[i]).0, clock);
            assert(kept.contains(kept[i]));
            let j = choose|j: int| 0 <= j < rows.len() && rows[j] == kept[i];
            assert(after(rows[j].0, clock));
        }
        if superseded(rows, clock) {
            let j = choose|j: int| 0 <= j < rows.len() && after((#[trigger] rows[j]).0, clock);
            assert(keep(rows[j]));
            assert(rows.contains(rows[j]));
            assert(kept.contains(rows[j]));
            let i = choose|i: int| 0 <= i < kept.len() && kept[i] == rows[j];
            assert(after(kept[i].0, clock));
        }
    }
    assert(holds(kept, c, v) <==> holds(rows, c, v) && !crate::counts::dominates(clock, c)) by {
        if holds(kept, c, v) {
            let i = choose|i: int|
                0 <= i < kept.len() && crate::counts::same_counts((#[trigger] kept[i]).0, c)
                    && kept[i].1 == v;
            assert(kept.contains(kept[i]));
            let j = choose|j: int| 0 <= j < rows.len() && rows[j] == kept[i];
            assert(crate::counts::same_counts(rows[j].0, c));
            same_clock_same_order(rows[j].0, c, clock);
        }
        if holds(rows, c, v) && !crate::counts::dominates(clock, c) {
            let j = choose|j: int|
                0 <= j < rows.len() && crate::counts::same_counts((#[trigger] rows[j]).0, c)
                    && rows[j].1 == v;
            same_clock_same_order(rows[j].0, c, clock);
            assert(keep(rows[j]));
            assert(rows.contains(rows[j]));
            assert(kept.contains(rows[j]));
            let i = choose|i: int| 0 <= i < kept.len() && kept[i] == rows[j];
            assert(crate::counts::same_counts(kept[i].0, c));
        }
    }
    if superseded(kept, clock) {
        assert(result == kept);
    } else {
        assert(result == kept.push((clock, value)));
        if holds(kept, c, v) {
            let i = choose|i: int|
                0 <= i < kept.len() && crate::counts::same_counts((#[trigger] kept[i]).0, c)
                    && kept[i].1 == v;
            assert(result[i] == kept[i]);
        }
        if crate::counts::same_counts(clock, c) && v == value {
            assert(result[kept.len() as int] == (clock, value));
        }
        if holds(result, c, v) {
            let i = choose|i: int|
                0 <= i < result.len() && crate::counts::same_counts((#[trigger] result[i]).0, c)
                    && result[i].1 == v;
            if i < kept.len() {
                assert(kept[i] == result[i]);
            }
        }
    }
}

/// A delta since a version, which is the clocks of entries, holds the writes that none of these
/// clocks dominates, and no others; and applying it is merging. What is read is the values in the
/// order of the rows.
pub proof fn delta_is_unseen_writes<T: Clone + PartialEq>(
    rows: Seq<(Map<NodeId, u64>, T)>,
    other: Seq<(Map<NodeId, u64>, T)>,
    since: Seq<Map<NodeId, u64>>,
    clock: Map<NodeId, u64>,
    value: T,
    values: Vec<T>,
)
    ensures
        holds(MVRegister::<T>::delta_of(rows, since), clock, value) <==> holds(rows, clock, value)
            && !(exists|i: int|
            0 <= i < since.len() && crate::counts::dominates(#[trigger] since[i], clock)),
        MVRegister::<T>::absorb(rows, other) == MVRegister::<T>::join(rows, other),
        MVRegister::<T>::version_of(rows).len() == rows.len(),
        forall|i: int|
            0 <= i < rows.len() ==> #[trigger] MVRegister::<T>::version_of(rows)[i] == rows[i].0,
        MVRegister::<T>::vacuous(rows) <==> rows.len() == 0,
        MVRegister::<T>::reads(rows, values) ==> values@.len() == rows.len() && forall|i: int|
            0 <= i < rows.len() ==> #[trigger] values@[i] == rows[i].1,
        MVRegister::<T>::below(rows, other) <==> forall|i: int|
            0 <= i < rows.len() ==> exists|j: int|
                0 <= j < other.len() && crate::counts::dominates(
                    (#[trigger] other[j]).0,
                    (#[trigger] rows[i]).0,
                ),
        MVRegister::<T>::lawful() <==> exact_clone::<T>() && exact_eq::<T>(),
        MVRegister::<T>::readable(rows),
        MVRegister::<T>::agree(rows, other),
        MVRegister::<T>::survives(rows, other),
        MVRegister::<T>::regroupable(rows, other, rows),
        MVRegister::<T>::bridges(rows, since, other),
        MVRegister::<T>::is_versioned(rows),
        MVRegister::<T>::delta_valid(rows),
        MVRegister::<T>::delta_agree(rows, other),
{
    unseen_holds(rows, since, clock, value);
    if forall|i: int|
        0 <= i < rows.len() ==> exists|j: int|
            0 <= j < other.len() && crate::counts::dominates(
                (#[trigger] other[j]).0,
                (#[trigger] rows[i]).0,
            ) {
        assert forall|i: int| 0 <= i < rows.len() implies covered(
            other,
            (#[trigger] rows[i]).0,
        ) by {}
    }
}

} // verus!

//! Event counts per node, where a node without an entry counts zero.
use crate::collections::map_entries;
use crate::NodeId;
use std::collections::BTreeMap;
use vstd::prelude::*;

verus! {

/// The count of `node`.
pub open spec fn count(counts: Map<NodeId, u64>, node: NodeId) -> u64 {
    if counts.contains_key(node) {
        counts[node]
    } else {
        0
    }
}

/// Every count of `a` is at least that of `b`.
pub open spec fn dominates(a: Map<NodeId, u64>, b: Map<NodeId, u64>) -> bool {
    forall|node: NodeId| #[trigger] count(a, node) >= count(b, node)
}

/// All counts are equal.
pub open spec fn same_counts(a: Map<NodeId, u64>, b: Map<NodeId, u64>) -> bool {
    forall|node: NodeId| #[trigger] count(a, node) == count(b, node)
}

/// The greater count of each node.
pub open spec fn join_counts(a: Map<NodeId, u64>, b: Map<NodeId, u64>) -> Map<NodeId, u64> {
    Map::new(
        |node: NodeId| a.contains_key(node) || b.contains_key(node),
        |node: NodeId|
            if count(a, node) >= count(b, node) {
                count(a, node)
            } else {
                count(b, node)
            },
    )
}

/// The counts that exceed those of `since`.
pub open spec fn counts_beyond(a: Map<NodeId, u64>, since: Map<NodeId, u64>) -> Map<NodeId, u64> {
    Map::new(
        |node: NodeId| a.contains_key(node) && a[node] > count(since, node),
        |node: NodeId| a[node],
    )
}

/// The counts of the nodes of which `clock` has seen more than `since`.
pub open spec fn counts_ticked(
    a: Map<NodeId, u64>,
    clock: Map<NodeId, u64>,
    since: Map<NodeId, u64>,
) -> Map<NodeId, u64> {
    Map::new(
        |node: NodeId| a.contains_key(node) && count(clock, node) > count(since, node),
        |node: NodeId| a[node],
    )
}

/// All counts are equal exactly when each side dominates the other.
pub proof fn same_means_both(a: Map<NodeId, u64>, b: Map<NodeId, u64>)
    ensures
        same_counts(a, b) <==> dominates(a, b)
            && dominates(b, a),
{
    if same_counts(a, b) {
        assert forall|node: NodeId| #[trigger]
            count(b, node) >= count(a, node) by {
            assert(count(a, node) == count(b, node));
        }
    }
    if dominates(a, b) && dominates(b, a) {
        assert forall|node: NodeId| #[trigger]
            count(a, node) == count(b, node) by {
            assert(count(b, node) >= count(a, node));
        }
    }
}

/// Domination is transitive.
pub proof fn dominates_transitive(
    a: Map<NodeId, u64>,
    b: Map<NodeId, u64>,
    c: Map<NodeId, u64>,
)
    requires
        dominates(a, b),
        dominates(b, c),
    ensures
        dominates(a, c),
{
    assert forall|node: NodeId| #[trigger] count(a, node) >= count(c, node) by {
        assert(count(b, node) >= count(c, node));
    }
}

/// The join dominates both sides.
pub proof fn join_dominates(a: Map<NodeId, u64>, b: Map<NodeId, u64>)
    ensures
        dominates(join_counts(a, b), a),
        dominates(join_counts(a, b), b),
{
}

/// Counts that dominate `since` need only those that exceed `since`.
pub proof fn beyond_is_enough(
    sender: Map<NodeId, u64>,
    since: Map<NodeId, u64>,
    receiver: Map<NodeId, u64>,
)
    requires
        dominates(receiver, since),
    ensures
        same_counts(
            join_counts(receiver, counts_beyond(sender, since)),
            join_counts(receiver, sender),
        ),
        dominates(join_counts(receiver, counts_beyond(sender, since)), sender),
{
    let joined = join_counts(receiver, counts_beyond(sender, since));
    assert forall|node: NodeId| #[trigger] count(joined, node) == count(
        join_counts(receiver, sender),
        node,
    ) by {
        assert(count(receiver, node) >= count(since, node));
    }
    assert forall|node: NodeId| #[trigger] count(joined, node) >= count(sender, node) by {
        assert(count(receiver, node) >= count(since, node));
    }
}

/// The count of `node`.
pub fn get_count(counts: &BTreeMap<NodeId, u64>, node: &NodeId) -> (c: u64)
    ensures
        c == count(counts@, *node),
{
    match counts.get(node) {
        Some(c) => *c,
        None => 0,
    }
}

/// Whether every count of `a` is at least that of `b`.
pub fn counts_dominate(a: &BTreeMap<NodeId, u64>, b: &BTreeMap<NodeId, u64>) -> (result: bool)
    ensures
        result == dominates(a@, b@),
{
    let rows = map_entries(b);
    for i in 0..rows.len()
        invariant
            crate::collections::lists_map(rows@.unref(), b@),
            forall|j: int| 0 <= j < i ==> count(a@, *(#[trigger] rows@[j]).0) >= *rows@[j].1,
    {
        let c: u64 = get_count(a, rows[i].0);
        if c < *rows[i].1 {
            assert(rows@.unref()[i as int] == (*rows@[i as int].0, *rows@[i as int].1));
            assert(count(a@, *rows@[i as int].0) < count(b@, *rows@[i as int].0));
            return false;
        }
    }
    assert forall|node: NodeId| #[trigger] count(a@, node) >= count(b@, node) by {
        if b@.contains_key(node) {
            let i = choose|i: int|
                0 <= i < rows@.unref().len() && (#[trigger] rows@.unref()[i]).0 == node;
            assert(count(a@, *rows@[i].0) >= *rows@[i].1);
        }
    }
    true
}

/// Raises each count of `a` to that of `b`.
pub fn merge_counts(a: &mut BTreeMap<NodeId, u64>, b: &BTreeMap<NodeId, u64>)
    ensures
        final(a)@ == join_counts(old(a)@, b@),
{
    let rows = map_entries(b);
    let ghost listed = rows@.unref();
    let ghost start = a@;
    for i in 0..rows.len()
        invariant
            listed == rows@.unref(),
            crate::collections::lists_map(listed, b@),
            forall|node: NodeId|
                #![trigger a@.contains_key(node)]
                a@.contains_key(node) <==> start.contains_key(node) || exists|j: int|
                    0 <= j < i && (#[trigger] listed[j]).0 == node,
            forall|j: int|
                #![trigger listed[j]]
                0 <= j < i ==> a@[listed[j].0] == join_counts(start, b@)[listed[j].0],
            forall|node: NodeId|
                #![trigger a@[node]]
                start.contains_key(node) && (forall|j: int|
                    0 <= j < i ==> (#[trigger] listed[j]).0 != node) ==> a@[node] == start[node],
    {
        let ghost before = a@;
        let node: NodeId = *rows[i].0;
        let theirs: u64 = *rows[i].1;
        let mine: u64 = get_count(a, &node);
        assert(listed[i as int] == (node, theirs));
        let greater: u64 = if mine >= theirs {
            mine
        } else {
            theirs
        };
        a.insert(node, greater);
        proof {
            assert(mine == count(start, node));
            assert forall|n: NodeId| #![trigger a@.contains_key(n)] a@.contains_key(n)
                <==> start.contains_key(n)
                || exists|j: int| 0 <= j < i + 1 && (#[trigger] listed[j]).0 == n by {
                if n == node {
                    assert(listed[i as int].0 == n);
                }
            }
        }
    }
    proof {
        assert forall|node: NodeId| a@.contains_key(node)
            == join_counts(start, b@).contains_key(node) by {
            if exists|j: int| 0 <= j < rows@.len() && (#[trigger] listed[j]).0 == node {
                let j = choose|j: int| 0 <= j < rows@.len() && (#[trigger] listed[j]).0 == node;
                assert(b@.contains_key(listed[j].0));
            }
        }
        assert forall|node: NodeId| a@.contains_key(node) implies
            a@[node] == join_counts(start, b@)[node] by {
            if exists|j: int| 0 <= j < rows@.len() && (#[trigger] listed[j]).0 == node {
                let j = choose|j: int| 0 <= j < rows@.len() && (#[trigger] listed[j]).0 == node;
                assert(a@[listed[j].0] == join_counts(start, b@)[listed[j].0]);
            } else {
                assert(!b@.contains_key(node));
            }
        }
        assert(a@ =~= join_counts(start, b@));
    }
}

/// The counts of `a` that exceed those of `since`.
pub fn counts_since(a: &BTreeMap<NodeId, u64>, since: &BTreeMap<NodeId, u64>) -> (delta: BTreeMap<
    NodeId,
    u64,
>)
    ensures
        delta@ == counts_beyond(a@, since@),
{
    let rows = map_entries(a);
    let ghost listed = rows@.unref();
    let mut delta: BTreeMap<NodeId, u64> = BTreeMap::new();
    for i in 0..rows.len()
        invariant
            listed == rows@.unref(),
            crate::collections::lists_map(listed, a@),
            forall|node: NodeId|
                #![trigger delta@.contains_key(node)]
                delta@.contains_key(node) <==> counts_beyond(a@, since@).contains_key(node)
                    && exists|j: int| 0 <= j < i && (#[trigger] listed[j]).0 == node,
            forall|node: NodeId| #[trigger]
                delta@.contains_key(node) ==> delta@[node] == a@[node],
    {
        let node: NodeId = *rows[i].0;
        let mine: u64 = *rows[i].1;
        assert(listed[i as int] == (node, mine));
        if mine > get_count(since, &node) {
            delta.insert(node, mine);
        }
    }
    assert(delta@ =~= counts_beyond(a@, since@));
    delta
}

/// The counts of the nodes of which `clock` has seen more than `since`.
pub fn counts_ticked_since(
    a: &BTreeMap<NodeId, u64>,
    clock: &BTreeMap<NodeId, u64>,
    since: &BTreeMap<NodeId, u64>,
) -> (delta: BTreeMap<NodeId, u64>)
    ensures
        delta@ == counts_ticked(a@, clock@, since@),
{
    let rows = map_entries(a);
    let ghost listed = rows@.unref();
    let mut delta: BTreeMap<NodeId, u64> = BTreeMap::new();
    for i in 0..rows.len()
        invariant
            listed == rows@.unref(),
            crate::collections::lists_map(listed, a@),
            forall|node: NodeId|
                #![trigger delta@.contains_key(node)]
                delta@.contains_key(node) <==> counts_ticked(a@, clock@, since@).contains_key(node)
                    && exists|j: int| 0 <= j < i && (#[trigger] listed[j]).0 == node,
            forall|node: NodeId| #[trigger]
                delta@.contains_key(node) ==> delta@[node] == a@[node],
    {
        let node: NodeId = *rows[i].0;
        assert(listed[i as int] == (node, *rows@[i as int].1));
        if get_count(clock, &node) > get_count(since, &node) {
            delta.insert(node, *rows[i].1);
        }
    }
    assert(delta@ =~= counts_ticked(a@, clock@, since@));
    delta
}

/// A count is what is there for the node, and zero where nothing is.
pub proof fn missing_counts_zero(counts: Map<NodeId, u64>, node: NodeId)
    ensures
        counts.contains_key(node) ==> count(counts, node) == counts[node],
        !counts.contains_key(node) ==> count(counts, node) == 0,
{
}

/// Joining takes the greater of what is there for a node on either side, and has nothing for a node
/// that neither side has.
pub proof fn join_takes_the_greater(a: Map<NodeId, u64>, b: Map<NodeId, u64>, node: NodeId)
    ensures
        join_counts(a, b).contains_key(node) <==> a.contains_key(node) || b.contains_key(node),
        a.contains_key(node) ==> join_counts(a, b)[node] >= a[node],
        b.contains_key(node) ==> join_counts(a, b)[node] >= b[node],
        join_counts(a, b).contains_key(node) ==> (a.contains_key(node) && join_counts(a, b)[node]
            == a[node]) || (b.contains_key(node) && join_counts(a, b)[node] == b[node]),
{
}

/// One side dominates the other exactly where it has at least as much of every node.
pub proof fn dominates_by_entries(a: Map<NodeId, u64>, b: Map<NodeId, u64>)
    ensures
        dominates(a, b) <==> forall|node: NodeId| #[trigger]
            b.contains_key(node) && b[node] > 0 ==> a.contains_key(node) && a[node] >= b[node],
        same_counts(a, b) <==> dominates(a, b) && dominates(b, a),
{
    same_means_both(a, b);
    if dominates(a, b) {
        assert forall|node: NodeId| #[trigger] b.contains_key(node) && b[node] > 0 implies
            a.contains_key(node) && a[node] >= b[node] by {
            assert(count(a, node) >= count(b, node));
        }
    }
    if forall|node: NodeId| #[trigger]
        b.contains_key(node) && b[node] > 0 ==> a.contains_key(node) && a[node] >= b[node] {
        assert forall|node: NodeId| #[trigger] count(a, node) >= count(b, node) by {
            if b.contains_key(node) {}
        }
    }
}

/// What is beyond a version: the counts that it has less of, as they are. A count that was picked
/// by times is there exactly where the time of its node is beyond the version.
pub proof fn beyond_by_entries(
    a: Map<NodeId, u64>,
    times: Map<NodeId, u64>,
    since: Map<NodeId, u64>,
    node: NodeId,
)
    ensures
        counts_beyond(a, since).contains_key(node) <==> a.contains_key(node) && (if
        since.contains_key(node) {
            a[node] > since[node]
        } else {
            a[node] > 0
        }),
        counts_beyond(a, since).contains_key(node) ==> counts_beyond(a, since)[node] == a[node],
        counts_ticked(a, times, since).contains_key(node) <==> a.contains_key(node)
            && counts_beyond(times, since).contains_key(node),
        counts_ticked(a, times, since).contains_key(node) ==> counts_ticked(a, times, since)[node]
            == a[node],
{
}

} // verus!

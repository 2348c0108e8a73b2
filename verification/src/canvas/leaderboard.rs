//! Who owns how many pixels of the canvas.
use super::document::{PixelCoord, Rgba};
use crate::collections::map_entries;
use crate::counts::get_count;
use crate::registers::LWWRegister;
use crate::NodeId;
use std::collections::BTreeMap;
use vstd::prelude::*;

verus! {

/// The pixels whose last writer is `node`.
pub open spec fn owned(pixels: Map<PixelCoord, LWWRegister<Rgba>>, node: NodeId) -> Set<
    PixelCoord,
> {
    Set::new(|coord: PixelCoord| pixels.contains_key(coord) && pixels[coord].node_id == node)
}

/// One row of a leaderboard stands before another: more pixels first, and the lower node first
/// where the number is the same.
pub open spec fn ranks_before(a: (NodeId, u64), b: (NodeId, u64)) -> bool {
    a.1 > b.1 || (a.1 == b.1 && a.0 < b.0)
}

/// `board` lists every node that owns a pixel once, with the number of pixels that it owns, in
/// descending order.
pub open spec fn is_leaderboard(
    pixels: Map<PixelCoord, LWWRegister<Rgba>>,
    board: Seq<(NodeId, u64)>,
) -> bool {
    &&& forall|i: int, j: int|
        #![trigger board[i], board[j]]
        0 <= i < j < board.len() ==> ranks_before(board[i], board[j])
    &&& forall|i: int|
        #![trigger board[i]]
        0 <= i < board.len() ==> board[i].1 == owned(pixels, board[i].0).len() && board[i].1 > 0
    &&& forall|coord: PixelCoord| #[trigger]
        pixels.contains_key(coord) ==> exists|i: int|
            0 <= i < board.len() && (#[trigger] board[i]).0 == pixels[coord].node_id
}

/// The pixels that `node` owns among the first `n` rows.
spec fn owned_among(
    rows: Seq<(PixelCoord, LWWRegister<Rgba>)>,
    n: int,
    node: NodeId,
) -> Set<PixelCoord> {
    Set::new(
        |coord: PixelCoord|
            exists|i: int|
                0 <= i < n && (#[trigger] rows[i]).0 == coord && rows[i].1.node_id == node,
    )
}

proof fn owned_among_grows(
    rows: Seq<(PixelCoord, LWWRegister<Rgba>)>,
    n: int,
    node: NodeId,
)
    requires
        0 <= n < rows.len(),
        forall|i: int, j: int|
            #![trigger rows[i], rows[j]]
            0 <= i < j < rows.len() ==> rows[i].0 != rows[j].0,
    ensures
        owned_among(rows, n + 1, node) == if rows[n].1.node_id == node {
            owned_among(rows, n, node).insert(rows[n].0)
        } else {
            owned_among(rows, n, node)
        },
        !owned_among(rows, n, node).contains(rows[n].0),
{
    let before = owned_among(rows, n, node);
    let after = owned_among(rows, n + 1, node);
    assert forall|coord: PixelCoord| after.contains(coord) <==> before.contains(coord) || (coord
        == rows[n].0 && rows[n].1.node_id == node) by {
        if before.contains(coord) {
            let i = choose|i: int|
                0 <= i < n && (#[trigger] rows[i]).0 == coord && rows[i].1.node_id == node;
            assert(rows[i].0 == coord);
        }
    }
    if rows[n].1.node_id == node {
        assert(after =~= before.insert(rows[n].0));
    } else {
        assert(after =~= before);
    }
}

/// The number of pixels that each node owns.
fn count_owned(pixels: &BTreeMap<PixelCoord, LWWRegister<Rgba>>) -> (counts: BTreeMap<NodeId, u64>)
    ensures
        forall|node: NodeId| #[trigger]
            counts@.contains_key(node) <==> !owned(pixels@, node).is_empty(),
        forall|node: NodeId| #[trigger]
            counts@.contains_key(node) ==> counts@[node] == owned(pixels@, node).len()
                && counts@[node] > 0,
{
    let rows = map_entries(pixels);
    let ghost listed = rows@.unref();
    let mut counts: BTreeMap<NodeId, u64> = BTreeMap::new();
    assert forall|node: NodeId| #[trigger] owned_among(listed, 0, node).finite() && owned_among(
        listed,
        0,
        node,
    ).len() == 0 by {
        assert(owned_among(listed, 0, node) =~= Set::empty());
    }
    let mut i: usize = 0;
    while i < rows.len()
        invariant
            i <= rows.len(),
            listed == rows@.unref(),
            crate::collections::lists_map(listed, pixels@),
            forall|node: NodeId|
                #![trigger owned_among(listed, i as int, node)]
                #![trigger crate::counts::count(counts@, node)]
                owned_among(listed, i as int, node).finite() && owned_among(
                    listed,
                    i as int,
                    node,
                ).len() == crate::counts::count(counts@, node)
                    && crate::counts::count(counts@, node) <= i,
            forall|node: NodeId| #[trigger] counts@.contains_key(node) ==> counts@[node] > 0,
        decreases rows.len() - i,
    {
        assert(listed[i as int] == (*rows@[i as int].0, *rows@[i as int].1));
        let node: NodeId = rows[i].1.node_id();
        let c: u64 = get_count(&counts, &node);
        assert(c <= i);
        let ghost before = counts@;
        counts.insert(node, c + 1);
        proof {
            assert forall|n: NodeId|
                #![trigger owned_among(listed, i + 1, n)]
                #![trigger crate::counts::count(counts@, n)]
                owned_among(listed, i + 1, n).finite() && owned_among(listed, i + 1, n).len()
                    == crate::counts::count(counts@, n) && crate::counts::count(counts@, n) <= i
                    + 1 by {
                owned_among_grows(listed, i as int, n);
                assert(owned_among(listed, i as int, n).len() == crate::counts::count(before, n));
            }
        }
        i = i + 1;
    }
    proof {
        assert forall|node: NodeId| owned_among(listed, listed.len() as int, node) == owned(
            pixels@,
            node,
        ) by {
            assert forall|coord: PixelCoord| owned(pixels@, node).contains(coord) implies
                owned_among(
                listed,
                listed.len() as int,
                node,
            ).contains(coord) by {
                assert(pixels@.contains_key(coord));
            }
            assert(owned_among(listed, listed.len() as int, node) =~= owned(pixels@, node));
        }
        assert forall|node: NodeId| #[trigger] counts@.contains_key(node) implies counts@[node]
            == owned(pixels@, node).len() && counts@[node] > 0 by {
            assert(owned_among(listed, listed.len() as int, node).len() == crate::counts::count(
                counts@,
                node,
            ));
        }
        assert forall|node: NodeId| #[trigger] counts@.contains_key(node) <==> !owned(
            pixels@,
            node,
        ).is_empty() by {
            let all = owned_among(listed, listed.len() as int, node);
            assert(all.finite() && all.len() == crate::counts::count(counts@, node));
            assert(all == owned(pixels@, node));
            if all.is_empty() {
                assert(all =~= Set::empty());
            } else {
                vstd::set_lib::axiom_is_empty_len0(all);
            }
        }
    }
    counts
}

/// Puts the row where it belongs in a board that is in order.
fn insert_ranked(board: &mut Vec<(NodeId, u64)>, row: (NodeId, u64))
    requires
        forall|i: int, j: int|
            #![trigger old(board)@[i], old(board)@[j]]
            0 <= i < j < old(board)@.len() ==> ranks_before(old(board)@[i], old(board)@[j]),
        forall|i: int|
            #![trigger old(board)@[i]]
            0 <= i < old(board)@.len() ==> old(board)@[i].0 < row.0,
    ensures
        forall|i: int, j: int|
            #![trigger final(board)@[i], final(board)@[j]]
            0 <= i < j < final(board)@.len() ==> ranks_before(final(board)@[i], final(board)@[j]),
        exists|at: int|
            0 <= at <= old(board)@.len() && final(board)@ == #[trigger] old(board)@.insert(at, row),
{
    let mut at: usize = 0;
    while at < board.len() && board[at].1 >= row.1
        invariant
            at <= board@.len(),
            forall|i: int| #![trigger board@[i]] 0 <= i < at ==> board@[i].1 >= row.1,
        decreases board@.len() - at,
    {
        at = at + 1;
    }
    let ghost before = board@;
    board.insert(at, row);
    proof {
        let after = board@;
        assert(after == before.insert(at as int, row));
        assert forall|i: int, j: int|
            #![trigger after[i], after[j]]
            0 <= i < j < after.len() implies ranks_before(after[i], after[j]) by {
            if i < at {
                assert(after[i] == before[i]);
                if j == at {
                    assert(before[i].0 < row.0);
                } else if j < at {
                    assert(after[j] == before[j]);
                } else {
                    assert(after[j] == before[j - 1]);
                }
            } else if i == at {
                assert(after[j] == before[j - 1]);
                assert(before[at as int].1 < row.1);
                if j - 1 > at {
                    assert(ranks_before(before[at as int], before[j - 1]));
                }
            } else {
                assert(after[i] == before[i - 1]);
                assert(after[j] == before[j - 1]);
            }
        }
    }
}

/// The nodes that own pixels, with the number that each owns, in descending order.
pub fn leaderboard(pixels: &BTreeMap<PixelCoord, LWWRegister<Rgba>>) -> (board: Vec<(NodeId, u64)>)
    ensures
        is_leaderboard(pixels@, board@),
{
    let counts = count_owned(pixels);
    let rows = map_entries(&counts);
    let ghost listed = rows@.unref();
    let ghost keys = listed.map_values(|row: (NodeId, u64)| row.0);
    let mut board: Vec<(NodeId, u64)> = Vec::new();
    let mut i: usize = 0;
    while i < rows.len()
        invariant
            i <= rows.len(),
            listed == rows@.unref(),
            keys == listed.map_values(|row: (NodeId, u64)| row.0),
            vstd::std_specs::btree::increasing_seq(keys),
            crate::collections::lists_map(listed, counts@),
            forall|x: int, y: int|
                #![trigger board@[x], board@[y]]
                0 <= x < y < board@.len() ==> ranks_before(board@[x], board@[y]),
            forall|x: int|
                #![trigger board@[x]]
                0 <= x < board@.len() ==> exists|j: int|
                    0 <= j < i && #[trigger] listed[j] == board@[x],
            forall|j: int|
                #![trigger listed[j]]
                0 <= j < i ==> board@.contains(listed[j]),
        decreases rows.len() - i,
    {
        let row: (NodeId, u64) = (*rows[i].0, *rows[i].1);
        assert(listed[i as int] == row);
        let ghost before = board@;
        assert forall|x: int| #![trigger board@[x]] 0 <= x < board@.len() implies board@[x].0
            < row.0 by {
            let j = choose|j: int| 0 <= j < i && #[trigger] listed[j] == board@[x];
            assert(keys[j] == listed[j].0 && keys[i as int] == row.0);
            crate::collections::increasing_ids(keys);
        }
        insert_ranked(&mut board, row);
        proof {
            let at = choose|at: int|
                0 <= at <= before.len() && board@ == #[trigger] before.insert(at, row);
            assert forall|x: int| #![trigger board@[x]] 0 <= x < board@.len() implies exists|j: int|
                0 <= j < i + 1 && #[trigger] listed[j] == board@[x] by {
                if x < at {
                    assert(board@[x] == before[x]);
                } else if x == at {
                    assert(listed[i as int] == board@[x]);
                } else {
                    assert(board@[x] == before[x - 1]);
                }
            }
            assert forall|j: int| #![trigger listed[j]] 0 <= j < i + 1 implies board@.contains(
                listed[j],
            ) by {
                if j < i {
                    let x = choose|x: int| 0 <= x < before.len() && before[x] == listed[j];
                    if x < at {
                        assert(board@[x] == listed[j]);
                    } else {
                        assert(board@[x + 1] == listed[j]);
                    }
                } else {
                    assert(board@[at] == row);
                }
            }
        }
        i = i + 1;
    }
    proof {
        assert forall|x: int| #![trigger board@[x]] 0 <= x < board@.len() implies board@[x].1
            == owned(pixels@, board@[x].0).len() && board@[x].1 > 0 by {
            let j = choose|j: int| 0 <= j < listed.len() && #[trigger] listed[j] == board@[x];
            assert(counts@.contains_key(listed[j].0));
        }
        assert forall|coord: PixelCoord| #[trigger] pixels@.contains_key(coord) implies exists|
            i: int,
        | 0 <= i < board@.len() && (#[trigger] board@[i]).0 == pixels@[coord].node_id by {
            let node = pixels@[coord].node_id;
            assert(owned(pixels@, node).contains(coord));
            assert(counts@.contains_key(node));
            let j = choose|j: int| 0 <= j < listed.len() && (#[trigger] listed[j]).0 == node;
            assert(board@.contains(listed[j]));
        }
    }
    board
}

} // verus!

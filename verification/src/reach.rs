//! Walking over floor: when one cell can be reached from another by steps
//! to the four neighbours, and the facts about it that level generation
//! rests on.

use crate::grid::is_floor;
use crate::tile::Tile;
use vstd::prelude::*;

verus! {

/// The cells of `g` that can be walked on.
pub open spec fn floor_cells(g: Seq<Seq<Tile>>) -> Set<(int, int)> {
    Set::new(|c: (int, int)| is_floor(g, c.0, c.1))
}

/// Whether `a` and `b` are neighbours in one of the four directions.
pub open spec fn adjacent(a: (int, int), b: (int, int)) -> bool {
    ||| (a.0 == b.0 && (a.1 == b.1 + 1 || b.1 == a.1 + 1))
    ||| (a.1 == b.1 && (a.0 == b.0 + 1 || b.0 == a.0 + 1))
}

/// Whether `path` is a walk over `floor`: it is not empty, every cell of it
/// is floor, and each cell is a neighbour of the one before.
pub open spec fn is_walk(floor: Set<(int, int)>, path: Seq<(int, int)>) -> bool {
    &&& path.len() > 0
    &&& forall|i: int| 0 <= i < path.len() ==> floor.contains(#[trigger] path[i])
    &&& forall|i: int| 0 <= i < path.len() - 1 ==> adjacent(#[trigger] path[i], path[i + 1])
}

/// Whether a walk over `floor` leads from `a` to `b`.
pub open spec fn connected(floor: Set<(int, int)>, a: (int, int), b: (int, int)) -> bool {
    exists|path: Seq<(int, int)>| #[trigger]
        is_walk(floor, path) && path.first() == a && path.last() == b
}

/// Every floor cell is reached from itself.
pub proof fn lemma_connected_self(floor: Set<(int, int)>, a: (int, int))
    requires
        floor.contains(a),
    ensures
        connected(floor, a, a),
{
    let path = seq![a];
    assert(is_walk(floor, path));
}

/// Two neighbouring floor cells are reached from one another.
pub proof fn lemma_connected_step(floor: Set<(int, int)>, a: (int, int), b: (int, int))
    requires
        floor.contains(a),
        floor.contains(b),
        adjacent(a, b),
    ensures
        connected(floor, a, b),
{
    let path = seq![a, b];
    assert(is_walk(floor, path));
}

/// Walks can be joined: what is reached from a cell that is reached from `a`
/// is reached from `a`.
pub proof fn lemma_connected_chain(
    floor: Set<(int, int)>,
    a: (int, int),
    b: (int, int),
    c: (int, int),
)
    requires
        connected(floor, a, b),
        connected(floor, b, c),
    ensures
        connected(floor, a, c),
{
    let p = choose|path: Seq<(int, int)>| #[trigger]
        is_walk(floor, path) && path.first() == a && path.last() == b;
    let q = choose|path: Seq<(int, int)>| #[trigger]
        is_walk(floor, path) && path.first() == b && path.last() == c;
    let r = p + q.drop_first();
    assert forall|i: int| 0 <= i < r.len() - 1 implies adjacent(#[trigger] r[i], r[i + 1]) by {
        // the walks meet where `p` ends and `q` begins
        if i >= p.len() - 1 {
            let j = i - p.len() + 1;
            assert(adjacent(q[j], q[j + 1]));
        }
    }
    assert(is_walk(floor, r));
}

/// A walk can be taken backwards.
pub proof fn lemma_connected_back(floor: Set<(int, int)>, a: (int, int), b: (int, int))
    requires
        connected(floor, a, b),
    ensures
        connected(floor, b, a),
{
    let p = choose|path: Seq<(int, int)>| #[trigger]
        is_walk(floor, path) && path.first() == a && path.last() == b;
    let n = p.len() as int;
    let r = Seq::new(p.len(), |i: int| p[n - 1 - i]);
    assert forall|i: int| 0 <= i < r.len() - 1 implies adjacent(#[trigger] r[i], r[i + 1]) by {
        let j = n - 2 - i;
        assert(adjacent(p[j], p[j + 1]));
    }
    assert(is_walk(floor, r));
}

/// More floor takes no walk away.
pub proof fn lemma_connected_grows(
    small: Set<(int, int)>,
    big: Set<(int, int)>,
    a: (int, int),
    b: (int, int),
)
    requires
        small.subset_of(big),
        connected(small, a, b),
    ensures
        connected(big, a, b),
{
    let p = choose|path: Seq<(int, int)>| #[trigger]
        is_walk(small, path) && path.first() == a && path.last() == b;
    assert(is_walk(big, p));
}

/// The ends of a horizontal run of floor are reached from one another.
pub proof fn lemma_row_connected(floor: Set<(int, int)>, y: int, x1: int, x2: int)
    requires
        x1 <= x2,
        forall|x: int| x1 <= x <= x2 ==> #[trigger] floor.contains((x, y)),
    ensures
        connected(floor, (x1, y), (x2, y)),
        connected(floor, (x2, y), (x1, y)),
    decreases x2 - x1,
{
    if x1 == x2 {
        lemma_connected_self(floor, (x1, y));
    } else {
        lemma_row_connected(floor, y, x1, x2 - 1);
        lemma_connected_step(floor, (x2 - 1, y), (x2, y));
        lemma_connected_chain(floor, (x1, y), (x2 - 1, y), (x2, y));
        lemma_connected_back(floor, (x1, y), (x2, y));
    }
}

/// The ends of a vertical run of floor are reached from one another.
pub proof fn lemma_column_connected(floor: Set<(int, int)>, x: int, y1: int, y2: int)
    requires
        y1 <= y2,
        forall|y: int| y1 <= y <= y2 ==> #[trigger] floor.contains((x, y)),
    ensures
        connected(floor, (x, y1), (x, y2)),
        connected(floor, (x, y2), (x, y1)),
    decreases y2 - y1,
{
    if y1 == y2 {
        lemma_connected_self(floor, (x, y1));
    } else {
        lemma_column_connected(floor, x, y1, y2 - 1);
        lemma_connected_step(floor, (x, y2 - 1), (x, y2));
        lemma_connected_chain(floor, (x, y1), (x, y2 - 1), (x, y2));
        lemma_connected_back(floor, (x, y1), (x, y2));
    }
}

} // verus!

use vstd::prelude::*;
use vstd::math::{abs, max, min};
use crate::entity::adjacent4;
use crate::tile::{chebyshev, TileGrid};

verus! {

/// A walkable cell.
pub open spec fn is_floor(m: TileGrid, p: (int, int)) -> bool {
    m.in_bounds(p.0, p.1) && !m.tile(p.0, p.1).blocks_movement
}

/// One hop of a walk: staying put or moving to an edge-adjacent cell.
pub open spec fn step_ok(a: (int, int), b: (int, int)) -> bool {
    a == b || adjacent4(a.0, a.1, b.0, b.1)
}

/// A walk over carved floor.
pub open spec fn path_ok(m: TileGrid, path: Seq<(int, int)>) -> bool {
    &&& path.len() >= 1
    &&& forall|i: int| 0 <= i < path.len() ==> is_floor(m, #[trigger] path[i])
    &&& forall|i: int| 0 <= i < path.len() - 1 ==> step_ok(#[trigger] path[i], path[i + 1])
}

/// Flood-fill connectivity: some walk over floor joins the two cells.
pub open spec fn reachable(m: TileGrid, a: (int, int), b: (int, int)) -> bool {
    exists|path: Seq<(int, int)>|
        path_ok(m, path) && path[0] == a && path[path.len() - 1] == b
}

pub proof fn lemma_reach_refl(m: TileGrid, a: (int, int))
    requires
        is_floor(m, a),
    ensures
        reachable(m, a, a),
{
    let path = seq![a];
    assert(path_ok(m, path));
    assert(path[0] == a && path[path.len() - 1] == a);
}

pub proof fn lemma_reach_trans(m: TileGrid, a: (int, int), b: (int, int), c: (int, int))
    requires
        reachable(m, a, b),
        reachable(m, b, c),
    ensures
        reachable(m, a, c),
{
    let p1 = choose|p: Seq<(int, int)>| path_ok(m, p) && p[0] == a && p[p.len() - 1] == b;
    let p2 = choose|p: Seq<(int, int)>| path_ok(m, p) && p[0] == b && p[p.len() - 1] == c;
    let p = p1 + p2;
    assert forall|i: int| 0 <= i < p.len() implies is_floor(m, #[trigger] p[i]) by {
        if i < p1.len() {
            assert(p[i] == p1[i]);
        } else {
            assert(p[i] == p2[i - p1.len()]);
        }
    }
    assert forall|i: int| 0 <= i < p.len() - 1 implies step_ok(#[trigger] p[i], p[i + 1]) by {
        if i + 1 < p1.len() {
            assert(p[i] == p1[i] && p[i + 1] == p1[i + 1]);
        } else if i == p1.len() - 1 {
            assert(p[i] == p1[p1.len() - 1] && p[i + 1] == p2[0]);
            assert(step_ok(b, b));
        } else {
            assert(p[i] == p2[i - p1.len()] && p[i + 1] == p2[i + 1 - p1.len()]);
        }
    }
    assert(path_ok(m, p) && p[0] == a && p[p.len() - 1] == c);
}

/// Carving only ever adds floor, so a walk survives any later carving.
pub proof fn lemma_reach_mono(m1: TileGrid, m2: TileGrid, a: (int, int), b: (int, int))
    requires
        reachable(m1, a, b),
        m2.width == m1.width,
        m2.height == m1.height,
        forall|x: int, y: int|
            m1.in_bounds(x, y) && !m1.tile(x, y).blocks_movement ==> !(#[trigger] m2.tile(
                x,
                y,
            )).blocks_movement,
    ensures
        reachable(m2, a, b),
{
    let p = choose|p: Seq<(int, int)>| path_ok(m1, p) && p[0] == a && p[p.len() - 1] == b;
    assert forall|i: int| 0 <= i < p.len() implies is_floor(m2, #[trigger] p[i]) by {
        assert(is_floor(m1, p[i]));
    }
    assert(path_ok(m2, p) && p[0] == a && p[p.len() - 1] == b);
}

/// A fully carved horizontal run is connected end to end.
pub proof fn lemma_hseg_reach(m: TileGrid, x0: int, x1: int, y: int)
    requires
        forall|x: int| min(x0, x1) <= x <= max(x0, x1) ==> #[trigger] is_floor(m, (x, y)),
    ensures
        reachable(m, (x0, y), (x1, y)),
    decreases abs(x1 - x0),
{
    if x0 == x1 {
        lemma_reach_refl(m, (x0, y));
    } else {
        let xm = if x0 < x1 {
            x1 - 1
        } else {
            x1 + 1
        };
        lemma_hseg_reach(m, x0, xm, y);
        let hop = seq![(xm, y), (x1, y)];
        assert(path_ok(m, hop));
        assert(reachable(m, (xm, y), (x1, y)));
        lemma_reach_trans(m, (x0, y), (xm, y), (x1, y));
    }
}

/// A fully carved vertical run is connected end to end.
pub proof fn lemma_vseg_reach(m: TileGrid, x: int, y0: int, y1: int)
    requires
        forall|y: int| min(y0, y1) <= y <= max(y0, y1) ==> #[trigger] is_floor(m, (x, y)),
    ensures
        reachable(m, (x, y0), (x, y1)),
    decreases abs(y1 - y0),
{
    if y0 == y1 {
        lemma_reach_refl(m, (x, y0));
    } else {
        let ym = if y0 < y1 {
            y1 - 1
        } else {
            y1 + 1
        };
        lemma_vseg_reach(m, x, y0, ym);
        let hop = seq![(x, ym), (x, y1)];
        assert(path_ok(m, hop));
        assert(reachable(m, (x, ym), (x, y1)));
        lemma_reach_trans(m, (x, y0), (x, ym), (x, y1));
    }
}

/// Walking a chain of touching cells whose stamps are all carved: each hop
/// goes through the L-corner between consecutive chain points.
pub proof fn lemma_chain_reach(m: TileGrid, line: Seq<(int, int)>, k: int)
    requires
        0 <= k < line.len(),
        forall|i: int| 0 <= i < line.len() ==> #[trigger] is_floor(m, line[i]),
        forall|i: int|
            0 <= i < line.len() - 1 ==> is_floor(m, ((#[trigger] line[i + 1]).0, line[i].1)),
        forall|i: int|
            0 <= i < line.len() - 1 ==> chebyshev(#[trigger] line[i], line[i + 1]) == 1,
    ensures
        reachable(m, line[0], line[k]),
    decreases k,
{
    if k == 0 {
        lemma_reach_refl(m, line[0]);
    } else {
        lemma_chain_reach(m, line, k - 1);
        let a = line[k - 1];
        let b = line[k];
        let c = (b.0, a.1);
        let hop = seq![a, c, b];
        assert(chebyshev(a, b) == 1);
        assert(step_ok(a, c));
        assert(step_ok(c, b));
        assert(path_ok(m, hop));
        assert(reachable(m, a, b));
        lemma_reach_trans(m, line[0], a, b);
    }
}

} // verus!

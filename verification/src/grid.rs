//! The mathematical model of a maze: a grid of wall flags (`true` is a
//! wall), rows indexed by `y`, columns by `x`, and the walks through its
//! open cells.

use vstd::prelude::*;

verus! {

/// The maze as rows of wall flags.
pub open spec fn grid_model(m: Seq<Vec<bool>>) -> Seq<Seq<bool>> {
    m.map_values(|row: Vec<bool>| row@)
}

/// `g` has `h` rows of `w` cells each.
pub open spec fn is_grid(g: Seq<Seq<bool>>, w: int, h: int) -> bool {
    &&& g.len() == h
    &&& forall|y: int| 0 <= y < h ==> #[trigger] g[y].len() == w
}

/// The cell `(x, y)` lies inside the grid.
pub open spec fn in_grid(g: Seq<Seq<bool>>, x: int, y: int) -> bool {
    0 <= y < g.len() && 0 <= x < g[y].len()
}

/// The cell `(x, y)` lies inside the grid and is floor.
pub open spec fn open_at(g: Seq<Seq<bool>>, x: int, y: int) -> bool {
    in_grid(g, x, y) && !g[y][x]
}

/// Two cells share a side.
pub open spec fn adjacent(a: (int, int), b: (int, int)) -> bool {
    ||| a.0 == b.0 && (a.1 == b.1 + 1 || a.1 + 1 == b.1)
    ||| a.1 == b.1 && (a.0 == b.0 + 1 || a.0 + 1 == b.0)
}

/// `p` is a walk over floor cells, each step to a side neighbour.
pub open spec fn is_walk(g: Seq<Seq<bool>>, p: Seq<(int, int)>) -> bool {
    &&& p.len() > 0
    &&& forall|i: int| 0 <= i < p.len() ==> #[trigger] open_at(g, p[i].0, p[i].1)
    &&& forall|i: int| 0 <= i < p.len() - 1 ==> #[trigger] adjacent(p[i], p[i + 1])
}

/// Some walk over floor cells leads from `a` to `b`.
pub open spec fn connected(g: Seq<Seq<bool>>, a: (int, int), b: (int, int)) -> bool {
    exists|p: Seq<(int, int)>| #[trigger] is_walk(g, p) && p[0] == a && p.last() == b
}

/// Every floor cell of `g` can be reached from `s`.
pub open spec fn all_connected_to(g: Seq<Seq<bool>>, s: (int, int)) -> bool {
    forall|x: int, y: int| #[trigger] open_at(g, x, y) ==> connected(g, s, (x, y))
}

/// `g` with the cell `(x, y)` turned into floor.
pub open spec fn carve(g: Seq<Seq<bool>>, x: int, y: int) -> Seq<Seq<bool>> {
    g.update(y, g[y].update(x, false))
}

/// Every floor cell of `g1` is floor in `g2` too.
pub open spec fn opens_more(g1: Seq<Seq<bool>>, g2: Seq<Seq<bool>>) -> bool {
    forall|x: int, y: int| #[trigger] open_at(g1, x, y) ==> open_at(g2, x, y)
}

/// Number of walls in a row.
pub open spec fn row_walls(r: Seq<bool>) -> nat
    decreases r.len(),
{
    if r.len() == 0 {
        0
    } else {
        row_walls(r.drop_last()) + if r.last() { 1nat } else { 0nat }
    }
}

/// Number of walls in the grid.
pub open spec fn grid_walls(g: Seq<Seq<bool>>) -> nat
    decreases g.len(),
{
    if g.len() == 0 {
        0
    } else {
        grid_walls(g.drop_last()) + row_walls(g.last())
    }
}

/// Carving a cell of a row removes one wall when the cell was one, none
/// otherwise.
pub proof fn lemma_row_walls_carve(r: Seq<bool>, x: int)
    requires
        0 <= x < r.len(),
    ensures
        row_walls(r.update(x, false)) + (if r[x] { 1nat } else { 0nat }) == row_walls(r),
    decreases r.len(),
{
    let r2 = r.update(x, false);
    if x == r.len() - 1 {
        assert(r2.drop_last() =~= r.drop_last());
    } else {
        assert(r2.drop_last() =~= r.drop_last().update(x, false));
        lemma_row_walls_carve(r.drop_last(), x);
    }
}

/// Carving a cell of the grid removes one wall when the cell was one, none
/// otherwise.
pub proof fn lemma_grid_walls_carve(g: Seq<Seq<bool>>, x: int, y: int)
    requires
        in_grid(g, x, y),
    ensures
        grid_walls(carve(g, x, y)) + (if g[y][x] { 1nat } else { 0nat }) == grid_walls(g),
    decreases g.len(),
{
    let g2 = carve(g, x, y);
    lemma_row_walls_carve(g[y], x);
    if y == g.len() - 1 {
        assert(g2.drop_last() =~= g.drop_last());
    } else {
        assert(g2.drop_last() =~= carve(g.drop_last(), x, y));
        lemma_grid_walls_carve(g.drop_last(), x, y);
    }
}

/// Carving opens the carved cell, keeps every other floor cell, opens
/// nothing else and leaves the grid's shape alone.
pub proof fn lemma_carve_opens_more(g: Seq<Seq<bool>>, x: int, y: int)
    requires
        in_grid(g, x, y),
    ensures
        opens_more(g, carve(g, x, y)),
        open_at(carve(g, x, y), x, y),
        forall|a: int, b: int| #[trigger] open_at(carve(g, x, y), a, b) ==> open_at(g, a, b) || (a == x && b == y),
        forall|a: int, b: int| #[trigger] in_grid(carve(g, x, y), a, b) <==> in_grid(g, a, b),
{
}

/// A walk stays a walk in a grid with more floor.
pub proof fn lemma_walk_mono(g1: Seq<Seq<bool>>, g2: Seq<Seq<bool>>, p: Seq<(int, int)>)
    requires
        opens_more(g1, g2),
        is_walk(g1, p),
    ensures
        is_walk(g2, p),
{
    assert forall|i: int| 0 <= i < p.len() implies #[trigger] open_at(g2, p[i].0, p[i].1) by {
        assert(open_at(g1, p[i].0, p[i].1));
    }
}

/// Cells connected in a grid stay connected in a grid with more floor.
pub proof fn lemma_connected_mono(g1: Seq<Seq<bool>>, g2: Seq<Seq<bool>>, a: (int, int), b: (int, int))
    requires
        opens_more(g1, g2),
        connected(g1, a, b),
    ensures
        connected(g2, a, b),
{
    let p = choose|p: Seq<(int, int)>| #[trigger] is_walk(g1, p) && p[0] == a && p.last() == b;
    lemma_walk_mono(g1, g2, p);
}

/// Extending a walk by one side step onto a floor cell.
pub proof fn lemma_connected_step(g: Seq<Seq<bool>>, a: (int, int), b: (int, int), c: (int, int))
    requires
        connected(g, a, b),
        adjacent(b, c),
        open_at(g, c.0, c.1),
    ensures
        connected(g, a, c),
{
    let p = choose|p: Seq<(int, int)>| #[trigger] is_walk(g, p) && p[0] == a && p.last() == b;
    let q = p.push(c);
    assert forall|i: int| 0 <= i < q.len() implies #[trigger] open_at(g, q[i].0, q[i].1) by {
        if i < p.len() {
            assert(open_at(g, p[i].0, p[i].1));
        }
    }
    assert forall|i: int| 0 <= i < q.len() - 1 implies #[trigger] adjacent(q[i], q[i + 1]) by {
        if i < p.len() - 1 {
            assert(adjacent(p[i], p[i + 1]));
        }
    }
    assert(is_walk(g, q));
}

/// Carving a wall cell next to a reachable floor cell keeps every floor
/// cell reachable.
pub proof fn lemma_carve_keeps_connected(g: Seq<Seq<bool>>, s: (int, int), a: (int, int), x: int, y: int)
    requires
        all_connected_to(g, s),
        open_at(g, a.0, a.1),
        adjacent(a, (x, y)),
        in_grid(g, x, y),
    ensures
        all_connected_to(carve(g, x, y), s),
{
    let g2 = carve(g, x, y);
    lemma_carve_opens_more(g, x, y);
    assert forall|u: int, v: int| #[trigger] open_at(g2, u, v) implies connected(g2, s, (u, v)) by {
        if open_at(g, u, v) {
            lemma_connected_mono(g, g2, s, (u, v));
        } else {
            assert(u == x && v == y);
            assert(connected(g, s, a));
            lemma_connected_mono(g, g2, s, a);
            assert(open_at(g2, a.0, a.1));
            lemma_connected_step(g2, s, a, (x, y));
        }
    }
}

} // verus!

//! The layout of a level: where the player faces at spawn, and on which
//! floor cells the batteries, the lever, the keepsakes, the echo
//! fragments, the tapes, the stalker and the lift are placed.

use rand::rngs::StdRng;
use vstd::prelude::*;

use crate::game::{GameState, FRAGMENT_COUNT};
use crate::grid::{all_connected_to, connected, grid_model, open_at};
use crate::maze::well_formed_maze;
use crate::rng::{choose_cell, shuffle_cells};

verus! {

/// Manhattan distance of a cell from the spawn room (1, 1).
pub open spec fn spawn_distance(c: (usize, usize)) -> int {
    (if c.0 >= 1 { c.0 - 1 } else { 1 - c.0 }) + (if c.1 >= 1 { c.1 - 1 } else { 1 - c.1 })
}

/// `a` comes before `b` in row-major order (by row, then by column).
pub open spec fn row_major_before(a: (usize, usize), b: (usize, usize)) -> bool {
    a.1 < b.1 || (a.1 == b.1 && a.0 < b.0)
}

/// `a` is farther from spawn than `b`, or as far and earlier in row-major
/// order.
pub open spec fn farther_first(a: (usize, usize), b: (usize, usize)) -> bool {
    spawn_distance(a) > spawn_distance(b) || (spawn_distance(a) == spawn_distance(b) && row_major_before(a, b))
}

/// The cells are listed in strictly increasing row-major order.
pub open spec fn row_major_sorted(s: Seq<(usize, usize)>) -> bool {
    forall|i: int, j: int| 0 <= i < j < s.len() ==> row_major_before(#[trigger] s[i], #[trigger] s[j])
}

/// Every distance of these cells from spawn fits in a `usize`.
pub open spec fn distances_fit(s: Seq<(usize, usize)>) -> bool {
    forall|i: int| 0 <= i < s.len() ==> #[trigger] spawn_distance(s[i]) <= usize::MAX
}

/// The maze handed to the level layout: a well-formed odd-sized maze whose
/// width plus height fits in a `usize`.
pub open spec fn is_level_maze(m: Seq<Vec<bool>>) -> bool {
    let g = grid_model(m);
    &&& g.len() >= 3
    &&& g.len() % 2 == 1
    &&& g[0].len() >= 3
    &&& g[0].len() % 2 == 1
    &&& g.len() + g[0].len() <= usize::MAX
    &&& well_formed_maze(g, g[0].len() as int, g.len() as int)
}

/// Manhattan distance from the spawn room (1, 1).
pub fn distance_from_spawn(c: (usize, usize)) -> (d: usize)
    requires
        spawn_distance(c) <= usize::MAX,
    ensures
        d == spawn_distance(c),
{
    let dx = if c.0 >= 1 { c.0 - 1 } else { 1 - c.0 };
    let dy = if c.1 >= 1 { c.1 - 1 } else { 1 - c.1 };
    dx + dy
}

/// All floor cells of the maze, in row-major order.
pub fn floor_cells(maze: &Vec<Vec<bool>>) -> (cells: Vec<(usize, usize)>)
    requires
        forall|y: int| 0 <= y < maze@.len() ==> maze@.len() + (#[trigger] maze@[y])@.len() <= usize::MAX,
    ensures
        forall|i: int| 0 <= i < cells@.len() ==> open_at(grid_model(maze@), (#[trigger] cells@[i]).0 as int, cells@[i].1 as int),
        forall|x: int, y: int| #[trigger] open_at(grid_model(maze@), x, y) ==> cells@.contains((x as usize, y as usize)),
        row_major_sorted(cells@),
        distances_fit(cells@),
{
    let ghost g = grid_model(maze@);
    let mut cells: Vec<(usize, usize)> = Vec::new();
    let mut y: usize = 0;
    while y < maze.len()
        invariant
            g == grid_model(maze@),
            y <= maze@.len(),
            forall|yy: int| 0 <= yy < maze@.len() ==> maze@.len() + (#[trigger] maze@[yy])@.len() <= usize::MAX,
            forall|i: int| 0 <= i < cells@.len() ==> open_at(g, (#[trigger] cells@[i]).0 as int, cells@[i].1 as int),
            forall|i: int| 0 <= i < cells@.len() ==> (#[trigger] cells@[i]).1 < y,
            forall|x: int, yy: int| #[trigger] open_at(g, x, yy) && yy < y ==> cells@.contains((x as usize, yy as usize)),
            row_major_sorted(cells@),
            distances_fit(cells@),
        decreases maze@.len() - y,
    {
        assert(g[y as int] == maze@[y as int]@);
        let row = &maze[y];
        let mut x: usize = 0;
        while x < row.len()
            invariant
                g == grid_model(maze@),
                y < maze@.len(),
                g[y as int] == row@,
                x <= row@.len(),
                maze@.len() + row@.len() <= usize::MAX,
                forall|i: int| 0 <= i < cells@.len() ==> open_at(g, (#[trigger] cells@[i]).0 as int, cells@[i].1 as int),
                forall|i: int| 0 <= i < cells@.len() ==> (#[trigger] cells@[i]).1 < y || (cells@[i].1 == y && cells@[i].0 < x),
                forall|a: int, yy: int| #[trigger] open_at(g, a, yy) && (yy < y || (yy == y && a < x))
                    ==> cells@.contains((a as usize, yy as usize)),
                row_major_sorted(cells@),
                distances_fit(cells@),
            decreases row@.len() - x,
        {
            if !row[x] {
                let ghost before = cells@;
                cells.push((x, y));
                assert forall|a: int, yy: int| #[trigger] open_at(g, a, yy) && (yy < y || (yy == y && a < x + 1))
                    implies cells@.contains((a as usize, yy as usize)) by {
                    if yy == y && a == x {
                        assert(cells@[cells@.len() - 1] == (x, y));
                    } else {
                        let j = before.index_of((a as usize, yy as usize));
                        assert(cells@[j] == before[j]);
                    }
                }
                assert(row_major_sorted(cells@)) by {
                    assert forall|i: int, j: int| 0 <= i < j < cells@.len() implies
                        row_major_before(#[trigger] cells@[i], #[trigger] cells@[j]) by {
                        if j < before.len() {
                            assert(before[i] == cells@[i] && before[j] == cells@[j]);
                        } else {
                            assert(before[i] == cells@[i]);
                        }
                    }
                }
                assert(distances_fit(cells@)) by {
                    assert forall|i: int| 0 <= i < cells@.len() implies #[trigger] spawn_distance(cells@[i]) <= usize::MAX by {
                        if i < before.len() {
                            assert(before[i] == cells@[i]);
                        }
                    }
                }
            }
            x = x + 1;
        }
        y = y + 1;
    }
    cells
}


/// The cells at least `min_dist` from spawn, in the order given.
pub fn cells_at_least(cells: &Vec<(usize, usize)>, min_dist: usize) -> (far: Vec<(usize, usize)>)
    requires
        distances_fit(cells@),
    ensures
        far@ == cells@.filter(|c: (usize, usize)| spawn_distance(c) >= min_dist),
        row_major_sorted(cells@) ==> row_major_sorted(far@),
{
    let ghost pred = |c: (usize, usize)| spawn_distance(c) >= min_dist;
    let mut far: Vec<(usize, usize)> = Vec::new();
    let mut i: usize = 0;
    while i < cells.len()
        invariant
            i <= cells@.len(),
            distances_fit(cells@),
            pred == (|c: (usize, usize)| spawn_distance(c) >= min_dist),
            far@ == cells@.take(i as int).filter(pred),
            row_major_sorted(cells@) ==> row_major_sorted(far@),
        decreases cells@.len() - i,
    {
        reveal_with_fuel(Seq::<_>::filter, 1);
        assert(cells@.take(i + 1).drop_last() =~= cells@.take(i as int));
        assert(spawn_distance(cells@[i as int]) <= usize::MAX);
        if distance_from_spawn(cells[i]) >= min_dist {
            let ghost before = far@;
            far.push(cells[i]);
            proof {
                if row_major_sorted(cells@) {
                    assert forall|a: int, b: int| 0 <= a < b < far@.len() implies
                        row_major_before(#[trigger] far@[a], #[trigger] far@[b]) by {
                        if b < before.len() {
                            assert(before[a] == far@[a] && before[b] == far@[b]);
                        } else {
                            assert(before[a] == far@[a]);
                            cells@.take(i as int).lemma_filter_contains_rev(pred, before[a]);
                            let j = cells@.take(i as int).index_of(before[a]);
                            assert(cells@[j] == before[a]);
                        }
                    }
                }
            }
        }
        i = i + 1;
    }
    assert(cells@.take(cells@.len() as int) =~= cells@);
    far
}

/// A random floor cell at least `min_dist` from spawn; when no cell is
/// that far, any floor cell; `None` only when there is no floor at all.
pub fn random_floor_spot(rng: &mut StdRng, floor: &Vec<(usize, usize)>, min_dist: usize) -> (spot: Option<(usize, usize)>)
    requires
        distances_fit(floor@),
    ensures
        spot is None <==> floor@.len() == 0,
        spot matches Some(c) ==> floor@.contains(c),
        spot matches Some(c) ==> (exists|i: int| 0 <= i < floor@.len() && spawn_distance(#[trigger] floor@[i]) >= min_dist)
            ==> spawn_distance(c) >= min_dist,
{
    let pool = cells_at_least(floor, min_dist);
    proof {
        let pred = |c: (usize, usize)| spawn_distance(c) >= min_dist;
        assert forall|k: int| 0 <= k < pool@.len() implies floor@.contains(#[trigger] pool@[k]) && pred(pool@[k]) by {
            floor@.lemma_filter_pred(pred, k);
            floor@.lemma_filter_contains_rev(pred, pool@[k]);
        }
        if exists|i: int| 0 <= i < floor@.len() && spawn_distance(#[trigger] floor@[i]) >= min_dist {
            let i = choose|i: int| 0 <= i < floor@.len() && spawn_distance(#[trigger] floor@[i]) >= min_dist;
            floor@.lemma_filter_contains(pred, i);
        }
    }
    if pool.len() == 0 {
        choose_cell(rng, floor)
    } else {
        let spot = choose_cell(rng, &pool);
        proof {
            if let Some(c) = spot {
                let k = pool@.index_of(c);
                assert(pool@[k] == c);
            }
        }
        spot
    }
}

/// Among the cells, the last one (in list order) that is farthest from
/// spawn, or `None` for no cells.
pub fn farthest_cell(cells: &Vec<(usize, usize)>) -> (far: Option<(usize, usize)>)
    requires
        distances_fit(cells@),
    ensures
        far is None <==> cells@.len() == 0,
        far matches Some(c) ==> exists|i: int| 0 <= i < cells@.len() && cells@[i] == c
            && (forall|j: int| 0 <= j < cells@.len() ==> spawn_distance(#[trigger] cells@[j]) <= spawn_distance(c))
            && (forall|j: int| i < j < cells@.len() ==> spawn_distance(#[trigger] cells@[j]) < spawn_distance(c)),
{
    if cells.len() == 0 {
        return None;
    }
    let mut best: usize = 0;
    let mut best_d = distance_from_spawn(cells[0]);
    let mut i: usize = 1;
    while i < cells.len()
        invariant
            1 <= i <= cells@.len(),
            best < i,
            distances_fit(cells@),
            best_d == spawn_distance(cells@[best as int]),
            forall|j: int| 0 <= j < i ==> spawn_distance(#[trigger] cells@[j]) <= best_d,
            forall|j: int| best < j < i ==> spawn_distance(#[trigger] cells@[j]) < best_d,
        decreases cells@.len() - i,
    {
        assert(spawn_distance(cells@[i as int]) <= usize::MAX);
        let d = distance_from_spawn(cells[i]);
        if d >= best_d {
            best = i;
            best_d = d;
        }
        i = i + 1;
    }
    Some(cells[best])
}


/// Whether `a` is farther from spawn than `b`, ties going to the earlier
/// cell in row-major order.
fn is_farther_first(a: (usize, usize), b: (usize, usize)) -> (r: bool)
    requires
        spawn_distance(a) <= usize::MAX,
        spawn_distance(b) <= usize::MAX,
    ensures
        r == farther_first(a, b),
{
    let da = distance_from_spawn(a);
    let db = distance_from_spawn(b);
    da > db || (da == db && (a.1 < b.1 || (a.1 == b.1 && a.0 < b.0)))
}

proof fn lemma_farther_first_order(a: (usize, usize), b: (usize, usize), c: (usize, usize))
    ensures
        farther_first(a, b) && farther_first(b, c) ==> farther_first(a, c),
        a != b ==> farther_first(a, b) || farther_first(b, a),
        !(farther_first(a, b) && farther_first(b, a)),
        !farther_first(a, a),
{
}

proof fn lemma_sorted_no_duplicates(s: Seq<(usize, usize)>)
    requires
        row_major_sorted(s),
    ensures
        s.no_duplicates(),
{
    assert forall|i: int, j: int| 0 <= i < s.len() && 0 <= j < s.len() && i != j implies s[i] != s[j] by {
        if i < j {
            assert(row_major_before(s[i], s[j]));
        } else {
            assert(row_major_before(s[j], s[i]));
        }
    }
}

/// The `k` cells farthest from spawn; among cells equally far, the earlier
/// in row-major order come first. (The same cells as ordering the list by
/// falling distance, keeping row-major order among equals, then keeping
/// the first `k`.)
pub fn farthest_cells(cells: &Vec<(usize, usize)>, k: usize) -> (chosen: Vec<(usize, usize)>)
    requires
        distances_fit(cells@),
        row_major_sorted(cells@),
    ensures
        chosen@.len() == if k < cells@.len() { k as int } else { cells@.len() as int },
        chosen@.no_duplicates(),
        forall|i: int| 0 <= i < chosen@.len() ==> cells@.contains(#[trigger] chosen@[i]),
        forall|i: int, j: int| 0 <= i < j < chosen@.len() ==> farther_first(#[trigger] chosen@[i], #[trigger] chosen@[j]),
        forall|i: int, d: (usize, usize)| 0 <= i < chosen@.len() && cells@.contains(d) && !chosen@.contains(d)
            ==> #[trigger] farther_first(chosen@[i], d),
{
    proof {
        lemma_sorted_no_duplicates(cells@);
    }
    let mut rest: Vec<(usize, usize)> = Vec::new();
    let mut i: usize = 0;
    while i < cells.len()
        invariant
            i <= cells@.len(),
            rest@ == cells@.take(i as int),
        decreases cells@.len() - i,
    {
        rest.push(cells[i]);
        i = i + 1;
    }
    assert(rest@ =~= cells@);
    let mut chosen: Vec<(usize, usize)> = Vec::new();
    while chosen.len() < k && rest.len() > 0
        invariant
            rest@.no_duplicates(),
            chosen@.no_duplicates(),
            forall|a: int, b: int| 0 <= a < b < chosen@.len() ==> farther_first(#[trigger] chosen@[a], #[trigger] chosen@[b]),
            forall|d: (usize, usize)| cells@.contains(d) <==> rest@.contains(d) || chosen@.contains(d),
            forall|d: (usize, usize)| !(rest@.contains(d) && chosen@.contains(d)),
            chosen@.len() + rest@.len() == cells@.len(),
            chosen@.len() <= k,
            distances_fit(rest@),
            forall|a: int, b: int| 0 <= a < chosen@.len() && 0 <= b < rest@.len()
                ==> farther_first(#[trigger] chosen@[a], #[trigger] rest@[b]),
        decreases rest@.len(),
    {
        let mut best: usize = 0;
        let mut j: usize = 1;
        while j < rest.len()
            invariant
                1 <= j <= rest@.len(),
                best < j,
                distances_fit(rest@),
                forall|t: int| 0 <= t < j ==> #[trigger] rest@[t] == rest@[best as int]
                    || farther_first(rest@[best as int], rest@[t]),
            decreases rest@.len() - j,
        {
            assert(spawn_distance(rest@[j as int]) <= usize::MAX);
            assert(spawn_distance(rest@[best as int]) <= usize::MAX);
            if is_farther_first(rest[j], rest[best]) {
                proof {
                    assert forall|t: int| 0 <= t < j + 1 implies #[trigger] rest@[t] == rest@[j as int]
                        || farther_first(rest@[j as int], rest@[t]) by {
                        lemma_farther_first_order(rest@[j as int], rest@[best as int], rest@[t]);
                    }
                }
                best = j;
            } else {
                proof {
                    lemma_farther_first_order(rest@[best as int], rest@[j as int], rest@[j as int]);
                }
            }
            j = j + 1;
        }
        let ghost old_rest = rest@;
        let ghost old_chosen = chosen@;
        let c = rest.remove(best);
        chosen.push(c);
        proof {
            assert forall|d: (usize, usize)| rest@.contains(d) <==> old_rest.contains(d) && d != c by {
                if rest@.contains(d) {
                    let t = rest@.index_of(d);
                    if t < best {
                        assert(old_rest[t] == d);
                    } else {
                        assert(old_rest[t + 1] == d);
                    }
                    assert(d != c);
                }
                if old_rest.contains(d) && d != c {
                    let t = old_rest.index_of(d);
                    if t < best {
                        assert(rest@[t] == d);
                    } else {
                        assert(rest@[t - 1] == d);
                    }
                }
            }
            assert forall|d: (usize, usize)| chosen@.contains(d) <==> old_chosen.contains(d) || d == c by {
                if chosen@.contains(d) {
                    let t = chosen@.index_of(d);
                    if t < old_chosen.len() {
                        assert(old_chosen[t] == d);
                    }
                }
                if old_chosen.contains(d) {
                    let t = old_chosen.index_of(d);
                    assert(chosen@[t] == d);
                }
                if d == c {
                    assert(chosen@[chosen@.len() - 1] == d);
                }
            }
            assert(chosen@.no_duplicates()) by {
                assert forall|a: int, b: int| 0 <= a < chosen@.len() && 0 <= b < chosen@.len() && a != b
                    implies chosen@[a] != chosen@[b] by {
                    if a < old_chosen.len() && b < old_chosen.len() {
                        assert(old_chosen[a] == chosen@[a] && old_chosen[b] == chosen@[b]);
                    } else if a < old_chosen.len() {
                        assert(old_chosen.contains(chosen@[a]));
                    } else {
                        assert(old_chosen.contains(chosen@[b]));
                    }
                }
            }
            assert forall|a: int, b: int| 0 <= a < b < chosen@.len() implies
                farther_first(#[trigger] chosen@[a], #[trigger] chosen@[b]) by {
                assert(chosen@[a] == old_chosen[a]);
                if b < old_chosen.len() {
                    assert(chosen@[b] == old_chosen[b]);
                } else {
                    assert(old_rest[best as int] == c);
                    assert(farther_first(old_chosen[a], old_rest[best as int]));
                }
            }
            assert(distances_fit(rest@)) by {
                assert forall|t: int| 0 <= t < rest@.len() implies #[trigger] spawn_distance(rest@[t]) <= usize::MAX by {
                    if t < best {
                        assert(rest@[t] == old_rest[t]);
                    } else {
                        assert(rest@[t] == old_rest[t + 1]);
                    }
                }
            }
            assert forall|a: int, b: int| 0 <= a < chosen@.len() && 0 <= b < rest@.len()
                implies farther_first(#[trigger] chosen@[a], #[trigger] rest@[b]) by {
                let ob = if b < best { b } else { b + 1 };
                assert(rest@[b] == old_rest[ob]);
                if a < old_chosen.len() {
                    assert(chosen@[a] == old_chosen[a]);
                } else {
                    assert(rest@[b] != c);
                }
            }
        }
    }
    proof {
        assert forall|i: int, d: (usize, usize)| 0 <= i < chosen@.len() && cells@.contains(d) && !chosen@.contains(d)
            implies #[trigger] farther_first(chosen@[i], d) by {
            let b = rest@.index_of(d);
            assert(rest@[b] == d);
        }
        assert forall|i: int| 0 <= i < chosen@.len() implies cells@.contains(#[trigger] chosen@[i]) by {
            assert(chosen@.contains(chosen@[i]));
        }
    }
    chosen
}


/// How far from spawn (Manhattan, in cells) the echo fragments are placed.
pub const FRAGMENT_MIN_DISTANCE: usize = 14;

/// The floor cells far enough from spawn to hold an echo fragment.
pub open spec fn fragment_cells(floor: Seq<(usize, usize)>) -> Seq<(usize, usize)> {
    floor.filter(|c: (usize, usize)| spawn_distance(c) >= FRAGMENT_MIN_DISTANCE)
}

/// Where the echo fragments of the second act may lie: as many as asked
/// for (fewer only when the level has fewer floor cells), each on its own
/// floor cell; all far from spawn when the level has enough such cells,
/// otherwise on the cells farthest from spawn.
pub open spec fn fragments_placed(floor: Seq<(usize, usize)>, f: Seq<(usize, usize)>) -> bool {
    &&& f.len() == if FRAGMENT_COUNT < floor.len() { FRAGMENT_COUNT as int } else { floor.len() as int }
    &&& f.no_duplicates()
    &&& forall|i: int| 0 <= i < f.len() ==> floor.contains(#[trigger] f[i])
    &&& fragment_cells(floor).len() >= FRAGMENT_COUNT ==>
        forall|i: int| 0 <= i < f.len() ==> spawn_distance(#[trigger] f[i]) >= FRAGMENT_MIN_DISTANCE
    &&& fragment_cells(floor).len() < FRAGMENT_COUNT ==>
        forall|i: int, d: (usize, usize)| 0 <= i < f.len() && floor.contains(d) && !f.contains(d)
            ==> #[trigger] farther_first(f[i], d)
}

/// The first `n` cells (all of them when there are fewer).
fn first_cells(v: &Vec<(usize, usize)>, n: usize) -> (r: Vec<(usize, usize)>)
    ensures
        r@ == v@.take(if n < v@.len() { n as int } else { v@.len() as int }),
{
    let mut r: Vec<(usize, usize)> = Vec::new();
    let mut i: usize = 0;
    while i < v.len() && i < n
        invariant
            i <= v@.len(),
            i <= n,
            r@ == v@.take(i as int),
        decreases v@.len() - i,
    {
        r.push(v[i]);
        i = i + 1;
    }
    r
}

/// The echo fragments: the far floor cells in random order, the first
/// [`FRAGMENT_COUNT`] of them; when fewer cells are that far, the
/// [`FRAGMENT_COUNT`] farthest cells instead.
pub fn place_fragments(rng: &mut StdRng, floor: &Vec<(usize, usize)>) -> (fragments: Vec<(usize, usize)>)
    requires
        distances_fit(floor@),
        row_major_sorted(floor@),
    ensures
        fragments_placed(floor@, fragments@),
{
    broadcast use vstd::seq_lib::group_to_multiset_ensures;
    let ghost pred = |c: (usize, usize)| spawn_distance(c) >= FRAGMENT_MIN_DISTANCE;
    let mut candidates = cells_at_least(floor, FRAGMENT_MIN_DISTANCE);
    let ghost far = candidates@;
    proof {
        floor@.lemma_filter_len(pred);
        lemma_sorted_no_duplicates(far);
        assert(far == fragment_cells(floor@));
    }
    let use_far = candidates.len() >= FRAGMENT_COUNT;
    if !use_far {
        candidates = farthest_cells(floor, FRAGMENT_COUNT);
    }
    let ghost picked = candidates@;
    proof {
        if use_far {
            lemma_sorted_no_duplicates(far);
        }
        picked.lemma_multiset_has_no_duplicates();
    }
    shuffle_cells(rng, &mut candidates);
    proof {
        candidates@.lemma_multiset_has_no_duplicates_conv();
    }
    let fragments = first_cells(&candidates, FRAGMENT_COUNT);
    proof {
        let f = fragments@;
        assert forall|i: int| 0 <= i < f.len() implies picked.contains(#[trigger] f[i]) by {
            assert(f[i] == candidates@[i]);
            assert(candidates@.contains(candidates@[i]));
            assert(candidates@.to_multiset().count(f[i]) > 0);
        }
        assert(f.no_duplicates()) by {
            assert forall|a: int, b: int| 0 <= a < f.len() && 0 <= b < f.len() && a != b implies f[a] != f[b] by {
                assert(f[a] == candidates@[a] && f[b] == candidates@[b]);
            }
        }
        if use_far {
            assert forall|i: int| 0 <= i < f.len() implies floor@.contains(#[trigger] f[i])
                && spawn_distance(f[i]) >= FRAGMENT_MIN_DISTANCE by {
                assert(picked.contains(f[i]));
                floor@.lemma_filter_contains_rev(pred, f[i]);
                let k = far.index_of(f[i]);
                floor@.lemma_filter_pred(pred, k);
            }
        } else {
            assert(f =~= candidates@);
            assert forall|d: (usize, usize)| f.contains(d) <==> picked.contains(d) by {
                assert(f.contains(d) <==> f.to_multiset().count(d) > 0);
                assert(picked.contains(d) <==> picked.to_multiset().count(d) > 0);
            }
            assert forall|i: int| 0 <= i < f.len() implies floor@.contains(#[trigger] f[i]) by {
                let k = picked.index_of(f[i]);
                assert(picked[k] == f[i]);
            }
            assert forall|i: int, d: (usize, usize)| 0 <= i < f.len() && floor@.contains(d) && !f.contains(d)
                implies #[trigger] farther_first(f[i], d) by {
                let k = picked.index_of(f[i]);
                assert(picked[k] == f[i]);
                assert(!picked.contains(d));
                assert(farther_first(picked[k], d));
            }
        }
    }
    fragments
}


/// Batteries scattered over a level of the first two acts.
pub const BATTERY_COUNT: usize = 6;
/// Batteries left in the reactor act.
pub const REACTOR_BATTERY_COUNT: usize = 4;
/// Story tapes in the second act.
pub const CASSETTE_COUNT: usize = 3;
/// Least distance from spawn of the generator lever.
pub const LEVER_MIN_DISTANCE: usize = 6;
/// Least distance from spawn of the story tapes.
pub const CASSETTE_MIN_DISTANCE: usize = 8;
/// Least distance from spawn at which the stalker appears.
pub const MONSTER_MIN_DISTANCE: usize = 10;

/// How many batteries an act scatters.
pub open spec fn battery_count(act: GameState) -> int {
    if act is Act3_TheReactor { REACTOR_BATTERY_COUNT as int } else { BATTERY_COUNT as int }
}

/// Which keepsakes (by index) each act hides: two in the first, two in the
/// second, the last one in the third.
pub open spec fn act_keepsakes(act: GameState) -> Seq<usize> {
    match act {
        GameState::Act1_TheDescent => seq![0usize, 1usize],
        GameState::Act2_TheInsanity => seq![2usize, 3usize],
        GameState::Act3_TheReactor => seq![4usize],
        _ => Seq::empty(),
    }
}

/// `c` is a floor cell at least `min_dist` from spawn, unless no floor
/// cell is that far.
pub open spec fn spot_on(floor: Seq<(usize, usize)>, c: (usize, usize), min_dist: int) -> bool {
    &&& floor.contains(c)
    &&& (exists|i: int| 0 <= i < floor.len() && spawn_distance(#[trigger] floor[i]) >= min_dist)
        ==> spawn_distance(c) >= min_dist
}

/// `c` is the last of the floor cells farthest from spawn.
pub open spec fn is_last_farthest(floor: Seq<(usize, usize)>, c: (usize, usize)) -> bool {
    exists|i: int| 0 <= i < floor.len() && floor[i] == c
        && (forall|j: int| 0 <= j < floor.len() ==> spawn_distance(#[trigger] floor[j]) <= spawn_distance(c))
        && (forall|j: int| i < j < floor.len() ==> spawn_distance(#[trigger] floor[j]) < spawn_distance(c))
}

/// The layout of one act's level, as cells `(x, y)` of its maze.
pub struct LevelPlan {
    /// Every floor cell, in row-major order.
    pub floor: Vec<(usize, usize)>,
    /// The player starts facing east (else south).
    pub spawn_faces_east: bool,
    pub batteries: Vec<(usize, usize)>,
    /// The generator lever (first act).
    pub lever: Option<(usize, usize)>,
    /// Keepsakes as (which keepsake, cell).
    pub quest_items: Vec<(usize, (usize, usize))>,
    /// Echo fragments (second act).
    pub fragments: Vec<(usize, usize)>,
    /// Story tapes as (which recording, cell) (second act).
    pub cassettes: Vec<(usize, (usize, usize))>,
    /// Where the stalker starts (second and third acts).
    pub monster: Option<(usize, usize)>,
    /// The lift (third act).
    pub elevator: Option<(usize, usize)>,
}

/// What [`plan_level`] promises of the layout of `act` on the maze `g`.
pub open spec fn level_planned(g: Seq<Seq<bool>>, act: GameState, plan: LevelPlan) -> bool {
    let floor = plan.floor@;
    let some_floor = floor.len() > 0;
    &&& forall|i: int| 0 <= i < floor.len() ==> open_at(g, (#[trigger] floor[i]).0 as int, floor[i].1 as int)
    &&& forall|x: int, y: int| #[trigger] open_at(g, x, y) ==> floor.contains((x as usize, y as usize))
    &&& row_major_sorted(floor)
    &&& plan.spawn_faces_east == open_at(g, 2, 1)
    &&& plan.batteries@.len() == if some_floor { battery_count(act) } else { 0 }
    &&& forall|i: int| 0 <= i < plan.batteries@.len() ==> floor.contains(#[trigger] plan.batteries@[i])
    &&& (act is Act1_TheDescent && some_floor) <==> plan.lever is Some
    &&& plan.lever matches Some(c) ==> spot_on(floor, c, LEVER_MIN_DISTANCE as int)
    &&& plan.quest_items@.len() == if some_floor { act_keepsakes(act).len() } else { 0 }
    &&& forall|i: int| 0 <= i < plan.quest_items@.len() ==> (#[trigger] plan.quest_items@[i]).0 == act_keepsakes(act)[i]
        && floor.contains(plan.quest_items@[i].1)
    &&& act is Act2_TheInsanity ==> fragments_placed(floor, plan.fragments@)
    &&& !(act is Act2_TheInsanity) ==> plan.fragments@.len() == 0
    &&& plan.cassettes@.len() == if act is Act2_TheInsanity && some_floor { CASSETTE_COUNT as int } else { 0 }
    &&& forall|i: int| 0 <= i < plan.cassettes@.len() ==> (#[trigger] plan.cassettes@[i]).0 == i
        && spot_on(floor, plan.cassettes@[i].1, CASSETTE_MIN_DISTANCE as int)
    &&& ((act is Act2_TheInsanity || act is Act3_TheReactor) && some_floor) <==> plan.monster is Some
    &&& plan.monster matches Some(c) ==> spot_on(floor, c, MONSTER_MIN_DISTANCE as int)
    &&& (act is Act3_TheReactor && some_floor) <==> plan.elevator is Some
    &&& plan.elevator matches Some(c) ==> is_last_farthest(floor, c)
}

/// Places the keepsakes `first..last` on random floor cells.
fn place_keepsakes(rng: &mut StdRng, floor: &Vec<(usize, usize)>, first: usize, last: usize,
    items: &mut Vec<(usize, (usize, usize))>)
    requires
        first <= last,
        distances_fit(floor@),
        old(items)@.len() == 0,
    ensures
        final(items)@.len() == if floor@.len() > 0 { last - first } else { 0 },
        forall|i: int| 0 <= i < final(items)@.len() ==> (#[trigger] final(items)@[i]).0 == first + i
            && floor@.contains(final(items)@[i].1),
{
    let mut index = first;
    while index < last
        invariant
            first <= index <= last,
            distances_fit(floor@),
            items@.len() == if floor@.len() > 0 { index - first } else { 0 },
            forall|i: int| 0 <= i < items@.len() ==> (#[trigger] items@[i]).0 == first + i
                && floor@.contains(items@[i].1),
        decreases last - index,
    {
        if let Some(spot) = random_floor_spot(rng, floor, 0) {
            items.push((index, spot));
        }
        index = index + 1;
    }
}

/// The layout of the level of `act` on `maze`: the floor cells; the
/// spawn's facing; batteries on random floor cells; then by act the
/// lever and two keepsakes (first act), the echo fragments, three tapes,
/// two keepsakes and the stalker (second act), or the lift on the
/// farthest cell, the last keepsake and the stalker (third act).
pub fn plan_level(rng: &mut StdRng, maze: &Vec<Vec<bool>>, act: GameState) -> (plan: LevelPlan)
    requires
        is_level_maze(maze@),
    ensures
        level_planned(grid_model(maze@), act, plan),
{
    let ghost g = grid_model(maze@);
    proof {
        assert forall|y: int| 0 <= y < maze@.len() implies maze@.len() + (#[trigger] maze@[y])@.len() <= usize::MAX by {
            assert(g[y] == maze@[y]@);
        }
        assert(g[1] == maze@[1]@);
    }
    let floor = floor_cells(maze);
    let spawn_faces_east = !maze[1][2];
    let battery_total = match act {
        GameState::Act3_TheReactor => REACTOR_BATTERY_COUNT,
        _ => BATTERY_COUNT,
    };
    let mut batteries: Vec<(usize, usize)> = Vec::new();
    let mut n: usize = 0;
    while n < battery_total
        invariant
            n <= battery_total,
            batteries@.len() == if floor@.len() > 0 { n as int } else { 0 },
            forall|i: int| 0 <= i < batteries@.len() ==> floor@.contains(#[trigger] batteries@[i]),
        decreases battery_total - n,
    {
        if let Some(cell) = choose_cell(rng, &floor) {
            batteries.push(cell);
        }
        n = n + 1;
    }
    let mut lever: Option<(usize, usize)> = None;
    let mut quest_items: Vec<(usize, (usize, usize))> = Vec::new();
    let mut fragments: Vec<(usize, usize)> = Vec::new();
    let mut cassettes: Vec<(usize, (usize, usize))> = Vec::new();
    let mut monster: Option<(usize, usize)> = None;
    let mut elevator: Option<(usize, usize)> = None;
    match act {
        GameState::Act1_TheDescent => {
            lever = random_floor_spot(rng, &floor, LEVER_MIN_DISTANCE);
            place_keepsakes(rng, &floor, 0, 2, &mut quest_items);
        },
        GameState::Act2_TheInsanity => {
            fragments = place_fragments(rng, &floor);
            let mut lore: usize = 0;
            while lore < CASSETTE_COUNT
                invariant
                    lore <= CASSETTE_COUNT,
                    distances_fit(floor@),
                    cassettes@.len() == if floor@.len() > 0 { lore as int } else { 0 },
                    forall|i: int| 0 <= i < cassettes@.len() ==> (#[trigger] cassettes@[i]).0 == i
                        && spot_on(floor@, cassettes@[i].1, CASSETTE_MIN_DISTANCE as int),
                decreases CASSETTE_COUNT - lore,
            {
                if let Some(spot) = random_floor_spot(rng, &floor, CASSETTE_MIN_DISTANCE) {
                    cassettes.push((lore, spot));
                }
                lore = lore + 1;
            }
            place_keepsakes(rng, &floor, 2, 4, &mut quest_items);
            monster = random_floor_spot(rng, &floor, MONSTER_MIN_DISTANCE);
        },
        GameState::Act3_TheReactor => {
            elevator = farthest_cell(&floor);
            place_keepsakes(rng, &floor, 4, 5, &mut quest_items);
            monster = random_floor_spot(rng, &floor, MONSTER_MIN_DISTANCE);
        },
        _ => {},
    }
    let plan = LevelPlan {
        floor,
        spawn_faces_east,
        batteries,
        lever,
        quest_items,
        fragments,
        cassettes,
        monster,
        elevator,
    };
    proof {
        assert(act_keepsakes(GameState::Act1_TheDescent) =~= seq![0usize, 1usize]);
    }
    plan
}


/// Everything a level layout places on the maze can be reached on foot
/// from the spawn room: the lever, the keepsakes, the fragments, the tapes,
/// the stalker's start and the lift.
pub proof fn lemma_layout_reachable(g: Seq<Seq<bool>>, act: GameState, plan: LevelPlan)
    requires
        all_connected_to(g, (1, 1)),
        level_planned(g, act, plan),
    ensures
        plan.lever matches Some(c) ==> connected(g, (1, 1), (c.0 as int, c.1 as int)),
        plan.elevator matches Some(c) ==> connected(g, (1, 1), (c.0 as int, c.1 as int)),
        plan.monster matches Some(c) ==> connected(g, (1, 1), (c.0 as int, c.1 as int)),
        forall|i: int| 0 <= i < plan.fragments@.len() ==>
            connected(g, (1, 1), ((#[trigger] plan.fragments@[i]).0 as int, plan.fragments@[i].1 as int)),
        forall|i: int| 0 <= i < plan.quest_items@.len() ==>
            connected(g, (1, 1), ((#[trigger] plan.quest_items@[i]).1.0 as int, plan.quest_items@[i].1.1 as int)),
        forall|i: int| 0 <= i < plan.cassettes@.len() ==>
            connected(g, (1, 1), ((#[trigger] plan.cassettes@[i]).1.0 as int, plan.cassettes@[i].1.1 as int)),
        forall|i: int| 0 <= i < plan.batteries@.len() ==>
            connected(g, (1, 1), ((#[trigger] plan.batteries@[i]).0 as int, plan.batteries@[i].1 as int)),
{
    let floor = plan.floor@;
    assert forall|c: (usize, usize)| floor.contains(c) implies connected(g, (1, 1), (c.0 as int, c.1 as int)) by {
        let k = floor.index_of(c);
        assert(open_at(g, floor[k].0 as int, floor[k].1 as int));
    }
    if let Some(c) = plan.elevator {
        let i = choose|i: int| 0 <= i < floor.len() && floor[i] == c
            && (forall|j: int| 0 <= j < floor.len() ==> spawn_distance(#[trigger] floor[j]) <= spawn_distance(c))
            && (forall|j: int| i < j < floor.len() ==> spawn_distance(#[trigger] floor[j]) < spawn_distance(c));
        assert(floor.contains(floor[i]));
    }
    if act is Act2_TheInsanity {
        assert forall|i: int| 0 <= i < plan.fragments@.len() implies
            connected(g, (1, 1), ((#[trigger] plan.fragments@[i]).0 as int, plan.fragments@[i].1 as int)) by {
            assert(floor.contains(plan.fragments@[i]));
        }
    }
}

} // verus!

//! The labyrinth generator: an iterative recursive-backtracker over the
//! odd cells ("rooms"), after which some dead ends are braided into loops.

use rand::rngs::StdRng;
use vstd::prelude::*;

use crate::grid::{
    adjacent, all_connected_to, carve, connected, grid_model, grid_walls, in_grid, is_grid, is_walk, open_at, opens_more,
    lemma_carve_keeps_connected, lemma_carve_opens_more, lemma_grid_walls_carve,
};
use crate::rng::{choose_cell, gen_ratio};

verus! {

/// Out of every hundred dead ends met, how many are braided into a loop.
pub const BRAID_PERCENT: u32 = 35;

/// `(x, y)` is a room: both coordinates odd, strictly inside the border.
pub open spec fn is_room(x: int, y: int, w: int, h: int) -> bool {
    &&& x % 2 == 1
    &&& y % 2 == 1
    &&& 1 <= x <= w - 2
    &&& 1 <= y <= h - 2
}

/// `(x, y)` lies on the outer border of a `w` by `h` grid.
pub open spec fn on_border(x: int, y: int, w: int, h: int) -> bool {
    x == 0 || y == 0 || x == w - 1 || y == h - 1
}

/// Every border cell of `g` is a wall.
pub open spec fn border_walled(g: Seq<Seq<bool>>, w: int, h: int) -> bool {
    forall|x: int, y: int| #![trigger g[y][x]]
        0 <= x < w && 0 <= y < h && on_border(x, y, w, h) ==> g[y][x]
}

/// Every cell with both coordinates even is a wall: these pillars stand
/// between the rooms and the passages that join them.
pub open spec fn pillars_walled(g: Seq<Seq<bool>>, w: int, h: int) -> bool {
    forall|x: int, y: int| #![trigger g[y][x]]
        0 <= x < w && 0 <= y < h && x % 2 == 0 && y % 2 == 0 ==> g[y][x]
}

/// The rooms two steps away from room `(x, y)` that lie inside the border
/// are all floor.
pub open spec fn room_neighbours_open(g: Seq<Seq<bool>>, x: int, y: int, w: int, h: int) -> bool {
    &&& x + 2 <= w - 2 ==> open_at(g, x + 2, y)
    &&& x - 2 >= 1 ==> open_at(g, x - 2, y)
    &&& y + 2 <= h - 2 ==> open_at(g, x, y + 2)
    &&& y - 2 >= 1 ==> open_at(g, x, y - 2)
}

/// Every room of the grid is floor.
pub open spec fn all_rooms_open(g: Seq<Seq<bool>>, w: int, h: int) -> bool {
    forall|x: int, y: int| #[trigger] is_room(x, y, w, h) ==> open_at(g, x, y)
}

/// What every maze from [`generate_maze`] satisfies.
pub open spec fn well_formed_maze(g: Seq<Seq<bool>>, w: int, h: int) -> bool {
    &&& is_grid(g, w, h)
    &&& border_walled(g, w, h)
    &&& pillars_walled(g, w, h)
    &&& all_rooms_open(g, w, h)
    &&& all_connected_to(g, (1, 1))
}

/// How many rooms a `w` by `h` maze has.
pub open spec fn room_count(w: int, h: int) -> int {
    ((w - 1) / 2) * ((h - 1) / 2)
}

/// How many cells of a `w` by `h` grid are floor.
pub open spec fn floor_count(g: Seq<Seq<bool>>, w: int, h: int) -> int {
    w * h - grid_walls(g)
}

/// Walls at odd columns of row `r`, counted only when the row index `y` is
/// odd: the rooms of that row that are still walls.
pub open spec fn row_room_walls(r: Seq<bool>, y: int) -> nat
    decreases r.len(),
{
    if r.len() == 0 {
        0
    } else {
        row_room_walls(r.drop_last(), y)
            + if r.last() && (r.len() - 1) % 2 == 1 && y % 2 == 1 { 1nat } else { 0nat }
    }
}

/// How many rooms (both coordinates odd) of the grid are still walls.
pub open spec fn room_walls(g: Seq<Seq<bool>>) -> nat
    decreases g.len(),
{
    if g.len() == 0 {
        0
    } else {
        room_walls(g.drop_last()) + row_room_walls(g.last(), g.len() - 1)
    }
}

proof fn lemma_row_room_walls_carve(r: Seq<bool>, x: int, y: int)
    requires
        0 <= x < r.len(),
    ensures
        row_room_walls(r.update(x, false), y) + (if r[x] && x % 2 == 1 && y % 2 == 1 { 1nat } else { 0nat })
            == row_room_walls(r, y),
    decreases r.len(),
{
    let r2 = r.update(x, false);
    if x == r.len() - 1 {
        assert(r2.drop_last() =~= r.drop_last());
    } else {
        assert(r2.drop_last() =~= r.drop_last().update(x, false));
        lemma_row_room_walls_carve(r.drop_last(), x, y);
    }
}

/// Carving a cell takes one room off the count when it was a walled room.
proof fn lemma_room_walls_carve(g: Seq<Seq<bool>>, x: int, y: int)
    requires
        in_grid(g, x, y),
    ensures
        room_walls(carve(g, x, y)) + (if g[y][x] && x % 2 == 1 && y % 2 == 1 { 1nat } else { 0nat })
            == room_walls(g),
    decreases g.len(),
{
    let g2 = carve(g, x, y);
    lemma_row_room_walls_carve(g[y], x, y);
    if y == g.len() - 1 {
        assert(g2.drop_last() =~= g.drop_last());
    } else {
        assert(g2.drop_last() =~= carve(g.drop_last(), x, y));
        lemma_room_walls_carve(g.drop_last(), x, y);
    }
}

proof fn lemma_full_row(r: Seq<bool>, y: int)
    requires
        forall|x: int| 0 <= x < r.len() ==> #[trigger] r[x],
    ensures
        crate::grid::row_walls(r) == r.len(),
        row_room_walls(r, y) == if y % 2 == 1 { r.len() / 2 } else { 0 },
    decreases r.len(),
{
    if r.len() > 0 {
        lemma_full_row(r.drop_last(), y);
    }
}

/// A grid of walls only: every cell and every room is a wall.
proof fn lemma_full_grid(g: Seq<Seq<bool>>, w: int, h: int)
    requires
        is_grid(g, w, h),
        w >= 0,
        forall|x: int, y: int| 0 <= x < w && 0 <= y < h ==> #[trigger] g[y][x],
    ensures
        grid_walls(g) == w * h,
        room_walls(g) == (w / 2) * (h / 2),
    decreases h,
{
    if h == 0 {
        assert(w * h == 0) by (nonlinear_arith) requires h == 0;
        assert((w / 2) * (h / 2) == 0) by (nonlinear_arith) requires h == 0;
    } else {
        let g1 = g.drop_last();
        assert forall|x: int, y: int| 0 <= x < w && 0 <= y < h - 1 implies #[trigger] g1[y][x] by {
            assert(g1[y] == g[y]);
        }
        assert forall|y: int| 0 <= y < h - 1 implies #[trigger] g1[y].len() == w by {
            assert(g1[y] == g[y]);
        }
        lemma_full_grid(g1, w, h - 1);
        let r = g.last();
        assert(r == g[h - 1]);
        assert(r.len() == w);
        assert(grid_walls(g) == grid_walls(g1) + crate::grid::row_walls(r));
        assert(room_walls(g) == room_walls(g1) + row_room_walls(r, h - 1));
        assert forall|x: int| 0 <= x < r.len() implies #[trigger] r[x] by {
            assert(g[h - 1][x]);
        }
        lemma_full_row(r, h - 1);
        assert(w * (h - 1) + w == w * h) by (nonlinear_arith);
        let a = (h - 1) / 2;
        let m = w / 2;
        if (h - 1) % 2 == 1 {
            assert(h / 2 == a + 1);
            assert(m * a + m == m * (a + 1)) by (nonlinear_arith);
        } else {
            assert(h / 2 == a);
        }
        assert(room_walls(g1) == m * a);
    }
}

proof fn lemma_open_row(r: Seq<bool>, y: int)
    requires
        y % 2 == 1 ==> forall|x: int| 0 <= x < r.len() && x % 2 == 1 ==> !#[trigger] r[x],
    ensures
        row_room_walls(r, y) == 0,
    decreases r.len(),
{
    if r.len() > 0 {
        lemma_open_row(r.drop_last(), y);
    }
}

/// With every odd-odd cell open, no room is a wall.
proof fn lemma_rooms_open_none_walled(g: Seq<Seq<bool>>)
    requires
        forall|x: int, y: int| 0 <= y < g.len() && 0 <= x < g[y].len() && x % 2 == 1 && y % 2 == 1
            ==> !#[trigger] g[y][x],
    ensures
        room_walls(g) == 0,
    decreases g.len(),
{
    if g.len() > 0 {
        let g1 = g.drop_last();
        assert forall|x: int, y: int| 0 <= y < g1.len() && 0 <= x < g1[y].len() && x % 2 == 1 && y % 2 == 1
            implies !#[trigger] g1[y][x] by {
            assert(g1[y] == g[y]);
        }
        lemma_rooms_open_none_walled(g1);
        let r = g.last();
        let y = g.len() - 1;
        assert forall|x: int| y % 2 == 1 && 0 <= x < r.len() && x % 2 == 1 implies !#[trigger] r[x] by {
            assert(!g[y][x]);
        }
        lemma_open_row(r, y);
    }
}

/// A passage cell (one coordinate odd, the other even) joins two rooms:
/// both of them are floor.
pub open spec fn links_open(g: Seq<Seq<bool>>, x: int, y: int) -> bool {
    if x % 2 == 0 {
        open_at(g, x - 1, y) && open_at(g, x + 1, y)
    } else {
        open_at(g, x, y - 1) && open_at(g, x, y + 1)
    }
}

/// Turns the cell `(x, y)` into floor.
fn carve_cell(maze: &mut Vec<Vec<bool>>, x: usize, y: usize)
    requires
        in_grid(grid_model(old(maze)@), x as int, y as int),
    ensures
        grid_model(final(maze)@) == carve(grid_model(old(maze)@), x as int, y as int),
{
    let ghost g = grid_model(maze@);
    maze[y][x] = false;
    assert(grid_model(maze@) =~= carve(g, x as int, y as int));
}

/// Whether the cell `(x, y)` is a wall.
fn wall_at(maze: &Vec<Vec<bool>>, x: usize, y: usize) -> (r: bool)
    requires
        in_grid(grid_model(maze@), x as int, y as int),
    ensures
        r == grid_model(maze@)[y as int][x as int],
{
    assert(grid_model(maze@)[y as int] == maze@[y as int]@);
    maze[y][x]
}

/// A `w` by `h` grid of walls.
fn all_walls(w: usize, h: usize) -> (g: Vec<Vec<bool>>)
    ensures
        is_grid(grid_model(g@), w as int, h as int),
        forall|x: int, y: int| 0 <= x < w && 0 <= y < h ==> #[trigger] grid_model(g@)[y][x],
{
    let mut g: Vec<Vec<bool>> = Vec::new();
    let mut y: usize = 0;
    while y < h
        invariant
            y <= h,
            g@.len() == y,
            forall|j: int| 0 <= j < y ==> #[trigger] g@[j]@.len() == w,
            forall|x: int, j: int| 0 <= x < w && 0 <= j < y ==> #[trigger] g@[j]@[x],
        decreases h - y,
    {
        let mut row: Vec<bool> = Vec::new();
        let mut x: usize = 0;
        while x < w
            invariant
                x <= w,
                row@.len() == x,
                forall|i: int| 0 <= i < x ==> #[trigger] row@[i],
            decreases w - x,
        {
            row.push(true);
            x = x + 1;
        }
        g.push(row);
        y = y + 1;
    }
    g
}


/// Rooms two steps from room `(cx, cy)`, inside the border, that are still
/// walls: east, west, south, north, in that order.
fn unvisited_neighbours(maze: &Vec<Vec<bool>>, cx: usize, cy: usize, w: usize, h: usize) -> (options: Vec<(usize, usize)>)
    requires
        is_grid(grid_model(maze@), w as int, h as int),
        is_room(cx as int, cy as int, w as int, h as int),
    ensures
        forall|i: int| 0 <= i < options@.len() ==> {
            let (nx, ny) = #[trigger] options@[i];
            &&& is_room(nx as int, ny as int, w as int, h as int)
            &&& grid_model(maze@)[ny as int][nx as int]
            &&& ((nx == cx + 2 || nx + 2 == cx) && ny == cy) || ((ny == cy + 2 || ny + 2 == cy) && nx == cx)
        },
        options@.len() == 0 ==> room_neighbours_open(grid_model(maze@), cx as int, cy as int, w as int, h as int),
{
    let ghost g = grid_model(maze@);
    let mut options: Vec<(usize, usize)> = Vec::new();
    if cx + 2 < w - 1 && wall_at(maze, cx + 2, cy) {
        options.push((cx + 2, cy));
    }
    if cx >= 3 && wall_at(maze, cx - 2, cy) {
        options.push((cx - 2, cy));
    }
    if cy + 2 < h - 1 && wall_at(maze, cx, cy + 2) {
        options.push((cx, cy + 2));
    }
    if cy >= 3 && wall_at(maze, cx, cy - 2) {
        options.push((cx, cy - 2));
    }
    options
}

/// The backtracker: from room (1, 1), walk to a random unvisited room two
/// steps away, carving the wall between; with none left, step back. The
/// result is a spanning tree over the rooms: every room is reached, and
/// each room but the first adds itself and one passage, `2n - 1` floor
/// cells for `n` rooms.
#[verifier::spinoff_prover]
#[verifier::rlimit(40)]
fn carve_passages(maze: &mut Vec<Vec<bool>>, rng: &mut StdRng, w: usize, h: usize)
    requires
        w % 2 == 1,
        h % 2 == 1,
        w >= 3,
        h >= 3,
        is_grid(grid_model(old(maze)@), w as int, h as int),
        forall|x: int, y: int| 0 <= x < w && 0 <= y < h ==> #[trigger] grid_model(old(maze)@)[y][x],
    ensures
        well_formed_maze(grid_model(final(maze)@), w as int, h as int),
        floor_count(grid_model(final(maze)@), w as int, h as int) == 2 * room_count(w as int, h as int) - 1,
{
    let ghost s = (1int, 1int);
    let ghost area = w * h;
    let ghost n = room_count(w as int, h as int);
    proof {
        lemma_full_grid(grid_model(maze@), w as int, h as int);
        lemma_grid_walls_carve(grid_model(maze@), 1, 1);
        lemma_room_walls_carve(grid_model(maze@), 1, 1);
    }
    let mut stack: Vec<(usize, usize)> = Vec::new();
    stack.push((1, 1));
    carve_cell(maze, 1, 1);
    proof {
        let g = grid_model(maze@);
        assert(grid_walls(g) + 2 * (n - room_walls(g)) == area + 1);
        assert forall|x: int, y: int| #[trigger] open_at(g, x, y) && x % 2 != y % 2 implies links_open(g, x, y) by {
            assert(x == 1 && y == 1);
        }
        assert forall|x: int, y: int| #[trigger] open_at(g, x, y) implies connected(g, s, (x, y)) by {
            assert(x == 1 && y == 1);
            let p = seq![(1int, 1int)];
            assert(is_walk(g, p));
        }
        assert(stack@[0] == (1usize, 1usize));
    }
    while stack.len() > 0
        invariant
            w % 2 == 1,
            h % 2 == 1,
            w >= 3,
            h >= 3,
            is_grid(grid_model(maze@), w as int, h as int),
            border_walled(grid_model(maze@), w as int, h as int),
            pillars_walled(grid_model(maze@), w as int, h as int),
            open_at(grid_model(maze@), 1, 1),
            all_connected_to(grid_model(maze@), s),
            area == w * h,
            n == room_count(w as int, h as int),
            grid_walls(grid_model(maze@)) + 2 * (n - room_walls(grid_model(maze@))) == area + 1,
            forall|x: int, y: int| #[trigger] open_at(grid_model(maze@), x, y) && x % 2 != y % 2
                ==> links_open(grid_model(maze@), x, y),
            forall|i: int| 0 <= i < stack@.len() ==> {
                let (x, y) = #[trigger] stack@[i];
                &&& is_room(x as int, y as int, w as int, h as int)
                &&& open_at(grid_model(maze@), x as int, y as int)
            },
            forall|x: int, y: int| #[trigger] is_room(x, y, w as int, h as int)
                && open_at(grid_model(maze@), x, y) ==>
                stack@.contains((x as usize, y as usize))
                || room_neighbours_open(grid_model(maze@), x, y, w as int, h as int),
        decreases grid_walls(grid_model(maze@)), stack@.len(),
    {
        let ghost g = grid_model(maze@);
        let (cx, cy) = stack[stack.len() - 1];
        assert(is_room(cx as int, cy as int, w as int, h as int));
        let options = unvisited_neighbours(maze, cx, cy, w, h);
        match choose_cell(rng, &options) {
            Some((nx, ny)) => {
                let ghost k = options@.index_of((nx, ny));
                assert(options@[k] == (nx, ny));
                let mx = if nx > cx { cx + 1 } else if nx < cx { cx - 1 } else { cx };
                let my = if ny > cy { cy + 1 } else if ny < cy { cy - 1 } else { cy };
                assert(adjacent((cx as int, cy as int), (mx as int, my as int)));
                assert(adjacent((mx as int, my as int), (nx as int, ny as int)));
                proof {
                    assert((mx as int) % 2 != (my as int) % 2);
                    if open_at(g, mx as int, my as int) {
                        assert(links_open(g, mx as int, my as int));
                        assert(open_at(g, nx as int, ny as int));
                    }
                    assert(g[my as int][mx as int]);
                    lemma_carve_keeps_connected(g, s, (cx as int, cy as int), mx as int, my as int);
                    lemma_carve_opens_more(g, mx as int, my as int);
                    lemma_grid_walls_carve(g, mx as int, my as int);
                    lemma_room_walls_carve(g, mx as int, my as int);
                }
                carve_cell(maze, mx, my);
                let ghost g1 = grid_model(maze@);
                proof {
                    lemma_carve_keeps_connected(g1, s, (mx as int, my as int), nx as int, ny as int);
                    lemma_carve_opens_more(g1, nx as int, ny as int);
                    lemma_grid_walls_carve(g1, nx as int, ny as int);
                    lemma_room_walls_carve(g1, nx as int, ny as int);
                }
                carve_cell(maze, nx, ny);
                let ghost old_stack = stack@;
                stack.push((nx, ny));
                proof {
                    let g2 = grid_model(maze@);
                    assert(grid_walls(g2) + 2 * (n - room_walls(g2)) == area + 1);
                    assert forall|x: int, y: int| #[trigger] open_at(g2, x, y) && x % 2 != y % 2
                        implies links_open(g2, x, y) by {
                        if x == mx && y == my {
                            assert(open_at(g2, cx as int, cy as int));
                            assert(open_at(g2, nx as int, ny as int));
                        } else if !(x == nx && y == ny) {
                            assert(open_at(g, x, y));
                            assert(links_open(g, x, y));
                            assert(open_at(g, x - 1, y) ==> open_at(g2, x - 1, y));
                            assert(open_at(g, x + 1, y) ==> open_at(g2, x + 1, y));
                            assert(open_at(g, x, y - 1) ==> open_at(g2, x, y - 1));
                            assert(open_at(g, x, y + 1) ==> open_at(g2, x, y + 1));
                        }
                    }
                    assert forall|x: int, y: int| #[trigger] is_room(x, y, w as int, h as int)
                        && open_at(g2, x, y) implies
                        stack@.contains((x as usize, y as usize))
                        || room_neighbours_open(g2, x, y, w as int, h as int) by {
                        if x == nx && y == ny {
                            assert(stack@[stack@.len() - 1] == (nx, ny));
                        } else {
                            assert(open_at(g, x, y));
                            if old_stack.contains((x as usize, y as usize)) {
                                let j = old_stack.index_of((x as usize, y as usize));
                                assert(stack@[j] == (x as usize, y as usize));
                            }
                        }
                    }
                    assert forall|i: int| 0 <= i < stack@.len() implies {
                        let (x, y) = #[trigger] stack@[i];
                        &&& is_room(x as int, y as int, w as int, h as int)
                        &&& open_at(g2, x as int, y as int)
                    } by {
                        if i < old_stack.len() {
                            assert(old_stack[i] == stack@[i]);
                        }
                    }
                }
            },
            None => {
                let ghost old_stack = stack@;
                stack.pop();
                proof {
                    assert forall|x: int, y: int| #[trigger] is_room(x, y, w as int, h as int)
                        && open_at(g, x, y) implies
                        stack@.contains((x as usize, y as usize))
                        || room_neighbours_open(g, x, y, w as int, h as int) by {
                        if x == cx && y == cy {
                        } else if old_stack.contains((x as usize, y as usize)) {
                            let j = old_stack.index_of((x as usize, y as usize));
                            assert(j != old_stack.len() - 1);
                            assert(stack@[j] == (x as usize, y as usize));
                        }
                    }
                    assert forall|i: int| 0 <= i < stack@.len() implies {
                        let (x, y) = #[trigger] stack@[i];
                        &&& is_room(x as int, y as int, w as int, h as int)
                        &&& open_at(g, x as int, y as int)
                    } by {
                        assert(old_stack[i] == stack@[i]);
                    }
                }
            },
        }
    }
    proof {
        let g = grid_model(maze@);
        lemma_finished_search_opens_all_rooms(g, w as int, h as int);
        assert forall|x: int, y: int| 0 <= y < g.len() && 0 <= x < g[y].len() && x % 2 == 1 && y % 2 == 1
            implies !#[trigger] g[y][x] by {
            assert(is_room(x, y, w as int, h as int));
        }
        lemma_rooms_open_none_walled(g);
    }
}

/// When room (1, 1) is floor and every floor room has all of its
/// neighbouring rooms floor, every room is floor.
proof fn lemma_finished_search_opens_all_rooms(g: Seq<Seq<bool>>, w: int, h: int)
    requires
        open_at(g, 1, 1),
        forall|x: int, y: int| #[trigger] is_room(x, y, w, h) && open_at(g, x, y)
            ==> room_neighbours_open(g, x, y, w, h),
    ensures
        all_rooms_open(g, w, h),
{
    assert forall|x: int, y: int| #[trigger] is_room(x, y, w, h) implies open_at(g, x, y) by {
        lemma_room_open(g, w, h, x, y);
    }
}

proof fn lemma_room_open(g: Seq<Seq<bool>>, w: int, h: int, x: int, y: int)
    requires
        open_at(g, 1, 1),
        forall|a: int, b: int| #[trigger] is_room(a, b, w, h) && open_at(g, a, b)
            ==> room_neighbours_open(g, a, b, w, h),
        is_room(x, y, w, h),
    ensures
        open_at(g, x, y),
    decreases x + y,
{
    if x >= 3 {
        assert(is_room(x - 2, y, w, h));
        lemma_room_open(g, w, h, x - 2, y);
    } else if y >= 3 {
        assert(is_room(x, y - 2, w, h));
        lemma_room_open(g, w, h, x, y - 2);
    }
}


/// 1 when `(x, y)` is floor, else 0.
pub open spec fn side_open(g: Seq<Seq<bool>>, x: int, y: int) -> int {
    if open_at(g, x, y) { 1 } else { 0 }
}

/// How many of the four sides of `(x, y)` are floor.
pub open spec fn open_sides(g: Seq<Seq<bool>>, x: int, y: int) -> int {
    side_open(g, x + 1, y) + side_open(g, x - 1, y) + side_open(g, x, y + 1) + side_open(g, x, y - 1)
}

/// `(x, y)` is a room with at most one open side: a dead end (or the only
/// room).
pub open spec fn dead_end(g: Seq<Seq<bool>>, x: int, y: int, w: int, h: int) -> bool {
    is_room(x, y, w, h) && open_sides(g, x, y) <= 1
}

/// The cell `(x, y)` is a side of a dead end of `g`.
pub open spec fn next_to_dead_end(g: Seq<Seq<bool>>, x: int, y: int, w: int, h: int) -> bool {
    ||| dead_end(g, x + 1, y, w, h)
    ||| dead_end(g, x - 1, y, w, h)
    ||| dead_end(g, x, y + 1, w, h)
    ||| dead_end(g, x, y - 1, w, h)
}

/// One room of the braiding: when it has exactly one open side, with
/// chance [`BRAID_PERCENT`] in a hundred one of its closed interior sides
/// is opened. So at most one wall is opened, only when the room has exactly
/// one open side as it is scanned, and only at a side of this room.
/// Relative to the maze `g0` before braiding began, the maze only gains
/// floor, and each cell gained is a side of a dead end of `g0`.
#[verifier::spinoff_prover]
#[verifier::rlimit(40)]
fn braid_room(maze: &mut Vec<Vec<bool>>, rng: &mut StdRng, cx: usize, cy: usize, w: usize, h: usize,
    Ghost(g0): Ghost<Seq<Seq<bool>>>)
    requires
        w % 2 == 1,
        h % 2 == 1,
        w >= 3,
        h >= 3,
        is_room(cx as int, cy as int, w as int, h as int),
        well_formed_maze(grid_model(old(maze)@), w as int, h as int),
        opens_more(g0, grid_model(old(maze)@)),
        forall|x: int, y: int| #[trigger] open_at(grid_model(old(maze)@), x, y) && !open_at(g0, x, y)
            ==> next_to_dead_end(g0, x, y, w as int, h as int),
    ensures
        well_formed_maze(grid_model(final(maze)@), w as int, h as int),
        opens_more(g0, grid_model(final(maze)@)),
        forall|x: int, y: int| #[trigger] open_at(grid_model(final(maze)@), x, y) && !open_at(g0, x, y)
            ==> next_to_dead_end(g0, x, y, w as int, h as int),
        opens_more(grid_model(old(maze)@), grid_model(final(maze)@)),
        forall|x: int, y: int| #[trigger] open_at(grid_model(final(maze)@), x, y)
            && !open_at(grid_model(old(maze)@), x, y) ==> adjacent((cx as int, cy as int), (x, y)),
        grid_walls(grid_model(final(maze)@)) == grid_walls(grid_model(old(maze)@))
            || (grid_walls(grid_model(final(maze)@)) + 1 == grid_walls(grid_model(old(maze)@))
                && open_sides(grid_model(old(maze)@), cx as int, cy as int) == 1),
{
    let ghost g = grid_model(maze@);
    assert(is_room(cx as int, cy as int, w as int, h as int));
    let ghost s = (1int, 1int);
    assert(open_at(g, cx as int, cy as int));
    let mut open: usize = 0;
    if !wall_at(maze, cx + 1, cy) {
        open = open + 1;
    }
    if !wall_at(maze, cx - 1, cy) {
        open = open + 1;
    }
    if !wall_at(maze, cx, cy + 1) {
        open = open + 1;
    }
    if !wall_at(maze, cx, cy - 1) {
        open = open + 1;
    }
    assert(open == open_sides(g, cx as int, cy as int));
    if open == 1 && gen_ratio(rng, BRAID_PERCENT, 100) {
        assert(dead_end(g0, cx as int, cy as int, w as int, h as int)) by {
            assert(side_open(g0, cx + 1, cy as int) <= side_open(g, cx + 1, cy as int));
            assert(side_open(g0, cx - 1, cy as int) <= side_open(g, cx - 1, cy as int));
            assert(side_open(g0, cx as int, cy + 1) <= side_open(g, cx as int, cy + 1));
            assert(side_open(g0, cx as int, cy - 1) <= side_open(g, cx as int, cy - 1));
        }
        let mut closed: Vec<(usize, usize)> = Vec::new();
        if cx + 1 < w - 1 && wall_at(maze, cx + 1, cy) {
            closed.push((cx + 1, cy));
        }
        if cx - 1 > 0 && wall_at(maze, cx - 1, cy) {
            closed.push((cx - 1, cy));
        }
        if cy + 1 < h - 1 && wall_at(maze, cx, cy + 1) {
            closed.push((cx, cy + 1));
        }
        if cy - 1 > 0 && wall_at(maze, cx, cy - 1) {
            closed.push((cx, cy - 1));
        }
        if let Some((x, y)) = choose_cell(rng, &closed) {
            let ghost k = closed@.index_of((x, y));
            assert(closed@[k] == (x, y));
            assert(adjacent((cx as int, cy as int), (x as int, y as int)));
            assert(g[y as int][x as int]);
            proof {
                lemma_carve_keeps_connected(g, s, (cx as int, cy as int), x as int, y as int);
                lemma_carve_opens_more(g, x as int, y as int);
                lemma_grid_walls_carve(g, x as int, y as int);
            }
            carve_cell(maze, x, y);
            proof {
                let g2 = grid_model(maze@);
                assert forall|a: int, b: int| #[trigger] is_room(a, b, w as int, h as int)
                    implies open_at(g2, a, b) by {
                    assert(open_at(g, a, b));
                }
                assert(next_to_dead_end(g0, x as int, y as int, w as int, h as int));
                assert forall|a: int, b: int| #[trigger] open_at(g0, a, b) implies open_at(g2, a, b) by {
                    assert(open_at(g, a, b));
                }
                assert forall|a: int, b: int| #[trigger] open_at(g2, a, b) && !open_at(g0, a, b)
                    implies next_to_dead_end(g0, a, b, w as int, h as int) by {
                    if !(a == x && b == y) {
                        assert(open_at(g, a, b));
                    }
                }
            }
        }
    }
}

/// Braiding: each room with exactly one open side may (with chance
/// [`BRAID_PERCENT`] in a hundred) lose one of its interior walls, chosen
/// at random, which turns the dead end into a loop. The maze only gains
/// floor, and every cell it gains is a side of a room that was a dead end
/// before braiding; each room opens at most one, so at most one cell per
/// room is gained. Whether any is gained is left to chance.
fn braid_dead_ends(maze: &mut Vec<Vec<bool>>, rng: &mut StdRng, w: usize, h: usize)
    requires
        w % 2 == 1,
        h % 2 == 1,
        w >= 3,
        h >= 3,
        well_formed_maze(grid_model(old(maze)@), w as int, h as int),
    ensures
        well_formed_maze(grid_model(final(maze)@), w as int, h as int),
        opens_more(grid_model(old(maze)@), grid_model(final(maze)@)),
        forall|x: int, y: int| #[trigger] open_at(grid_model(final(maze)@), x, y)
            && !open_at(grid_model(old(maze)@), x, y)
            ==> next_to_dead_end(grid_model(old(maze)@), x, y, w as int, h as int),
        grid_walls(grid_model(final(maze)@)) <= grid_walls(grid_model(old(maze)@)),
        grid_walls(grid_model(old(maze)@)) <= grid_walls(grid_model(final(maze)@)) + room_count(w as int, h as int),
{
    let ghost g0 = grid_model(maze@);
    let ghost m = (w - 1) / 2;
    let ghost scanned: int = 0;
    let mut cy: usize = 1;
    while cy < h - 1
        invariant
            w % 2 == 1,
            h % 2 == 1,
            w >= 3,
            h >= 3,
            cy % 2 == 1,
            cy <= h,
            well_formed_maze(grid_model(maze@), w as int, h as int),
            opens_more(g0, grid_model(maze@)),
            forall|x: int, y: int| #[trigger] open_at(grid_model(maze@), x, y) && !open_at(g0, x, y)
                ==> next_to_dead_end(g0, x, y, w as int, h as int),
            m == (w - 1) / 2,
            scanned == m * ((cy - 1) / 2),
            grid_walls(grid_model(maze@)) <= grid_walls(g0),
            grid_walls(g0) <= grid_walls(grid_model(maze@)) + scanned,
        decreases h - cy,
    {
        let mut cx: usize = 1;
        while cx < w - 1
            invariant
                w % 2 == 1,
                h % 2 == 1,
                w >= 3,
                h >= 3,
                cy % 2 == 1,
                1 <= cy < h - 1,
                cx % 2 == 1,
                cx <= w,
                well_formed_maze(grid_model(maze@), w as int, h as int),
                opens_more(g0, grid_model(maze@)),
                forall|x: int, y: int| #[trigger] open_at(grid_model(maze@), x, y) && !open_at(g0, x, y)
                    ==> next_to_dead_end(g0, x, y, w as int, h as int),
                m == (w - 1) / 2,
                scanned == m * ((cy - 1) / 2) + (cx - 1) / 2,
                grid_walls(grid_model(maze@)) <= grid_walls(g0),
                grid_walls(g0) <= grid_walls(grid_model(maze@)) + scanned,
            decreases w - cx,
        {
            braid_room(maze, rng, cx, cy, w, h, Ghost(g0));
            proof {
                scanned = scanned + 1;
            }
            cx = cx + 2;
        }
        proof {
            let a = (cy - 1) / 2;
            assert(cx == w);
            assert(m * a + m == m * (a + 1)) by (nonlinear_arith);
            assert((cy + 2 - 1) / 2 == a + 1);
        }
        cy = cy + 2;
    }
    proof {
        assert(cy == h);
        assert(m * ((h - 1) / 2) == room_count(w as int, h as int));
    }
}

/// `g` is the spanning tree `t` of a backtracker with some dead ends braided
/// into loops: `t` is a well-formed maze with exactly `2n - 1` floor cells
/// (a tree over its `n` rooms), `g` keeps all of its floor, and every cell
/// `g` opens beyond `t` is a side of a dead end of `t`.
pub open spec fn braided_tree(t: Seq<Seq<bool>>, g: Seq<Seq<bool>>, w: int, h: int) -> bool {
    &&& well_formed_maze(t, w, h)
    &&& floor_count(t, w, h) == 2 * room_count(w, h) - 1
    &&& opens_more(t, g)
    &&& forall|x: int, y: int| #[trigger] open_at(g, x, y) && !open_at(t, x, y) ==> next_to_dead_end(t, x, y, w, h)
}

/// A fresh `w` by `h` labyrinth (`true` is a wall): the border is wall,
/// every room (both coordinates odd) is floor, every pillar (both
/// coordinates even) is wall, and every floor cell can be reached from the
/// spawn room (1, 1). The backtracker lays out a perfect maze, a spanning
/// tree over the `n` rooms with `2n - 1` floor cells; braiding then opens
/// at most one extra wall per room, which adds loops, so the maze has
/// between `2n - 1` and `3n - 1` floor cells.
pub fn generate_maze(rng: &mut StdRng, w: usize, h: usize) -> (maze: Vec<Vec<bool>>)
    requires
        w % 2 == 1,
        h % 2 == 1,
        w >= 3,
        h >= 3,
    ensures
        well_formed_maze(grid_model(maze@), w as int, h as int),
        2 * room_count(w as int, h as int) - 1 <= floor_count(grid_model(maze@), w as int, h as int)
            <= 3 * room_count(w as int, h as int) - 1,
        exists|t: Seq<Seq<bool>>| braided_tree(t, grid_model(maze@), w as int, h as int),
{
    let mut maze = all_walls(w, h);
    carve_passages(&mut maze, rng, w, h);
    let ghost t = grid_model(maze@);
    braid_dead_ends(&mut maze, rng, w, h);
    assert(braided_tree(t, grid_model(maze@), w as int, h as int));
    maze
}

/// In a maze larger than one room, the spawn room (1, 1) opens to the east
/// (2, 1) or to the south (1, 2): its other two sides are border.
pub proof fn lemma_spawn_opens_east_or_south(g: Seq<Seq<bool>>, w: int, h: int)
    requires
        w % 2 == 1,
        h % 2 == 1,
        w >= 3,
        h >= 3,
        w >= 5 || h >= 5,
        well_formed_maze(g, w, h),
    ensures
        open_at(g, 2, 1) || open_at(g, 1, 2),
{
    let target = if w >= 5 { (3int, 1int) } else { (1int, 3int) };
    assert(is_room(target.0, target.1, w, h));
    assert(open_at(g, target.0, target.1));
    assert(connected(g, (1, 1), target));
    let p = choose|p: Seq<(int, int)>| #[trigger] is_walk(g, p) && p[0] == (1int, 1int) && p.last() == target;
    assert(p.len() >= 2);
    let i: int = 0;
    assert(adjacent(p[i], p[i + 1]));
    assert(open_at(g, p[1].0, p[1].1));
    assert(g[0][1]);
    assert(g[1][0]);
}

} // verus!

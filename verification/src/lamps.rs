//! Ceiling lights of a level: which lamp-grid cells get a fixture, which
//! fixtures are broken, steady or flickering, the dark zones without any
//! light, and the red emergency beacons of the reactor act.

use rand::rngs::StdRng;
use vstd::prelude::*;

use crate::game::GameState;
use crate::grid::{grid_model, open_at};
use crate::level::{is_level_maze, row_major_before};
use crate::maze::is_room;
use crate::rng::{gen_range_i32, gen_ratio};

verus! {

/// Fixtures hang on every third cell, starting at (1, 1).
pub const LAMP_STEP: usize = 3;
/// Beacons hang on every sixth cell, starting at (1, 1).
pub const BEACON_STEP: usize = 6;
/// At most this many beacons per level.
pub const MAX_BEACONS: usize = 4;
/// Dark zones per level.
pub const DARK_ZONE_COUNT: usize = 2;
/// Chance in a hundred that a fixture outside dark zones is broken.
pub const BROKEN_PERCENT: u32 = 15;
/// Chance in a hundred that a dark-zone cell still has a broken fixture.
pub const DARK_ZONE_FIXTURE_PERCENT: u32 = 55;
/// Chance in a hundred that a blacked-out cell has a broken fixture.
pub const BLACKOUT_FIXTURE_PERCENT: u32 = 30;

/// What hangs at a lamp cell.
#[derive(Debug, Clone, Copy, PartialEq, Eq, Structural)]
pub enum LampKind {
    /// Dark bulb, hanging askew, no light.
    Broken,
    /// Steady warm light.
    Steady,
    /// A faulty light that flickers.
    Flicker,
}

/// Chance in a hundred that a working fixture flickers: rarely in the
/// first act, often in the second, never otherwise.
pub open spec fn flicker_percent(act: GameState) -> u32 {
    match act {
        GameState::Act1_TheDescent => 15,
        GameState::Act2_TheInsanity => 30,
        _ => 0,
    }
}

/// A dark zone `(x0, y0, x1, y1)` covers the cells with
/// `x0 <= x < x1` and `y0 <= y < y1`.
pub open spec fn in_zone(z: (i32, i32, i32, i32), x: int, y: int) -> bool {
    z.0 <= x < z.2 && z.1 <= y < z.3
}

/// The cell lies inside one of the dark zones.
pub open spec fn in_some_zone(zones: Seq<(i32, i32, i32, i32)>, x: int, y: int) -> bool {
    exists|i: int| 0 <= i < zones.len() && #[trigger] in_zone(zones[i], x, y)
}

/// The cell is on the grid of every `step`-th cell from (1, 1) (for a
/// step above one).
pub open spec fn on_step_grid(c: (usize, usize), step: int) -> bool {
    (c.0 as int) % step == 1 && (c.1 as int) % step == 1
}

/// A dark zone as one is drawn on a `w` by `h` map: 4 to 6 cells wide and
/// 3 to 5 tall; its left edge at column 3 or more and below
/// `max(w - width - 1, 4)`, its top edge at row 1 or more and below
/// `max(h - height - 1, 2)`.
pub open spec fn zone_shape(z: (i32, i32, i32, i32), w: int, h: int) -> bool {
    let zw = z.2 - z.0;
    let zh = z.3 - z.1;
    &&& 4 <= zw <= 6
    &&& 3 <= zh <= 5
    &&& 3 <= z.0 && z.0 < (if w - zw - 1 > 4 { w - zw - 1 } else { 4 })
    &&& 1 <= z.1 && z.1 < (if h - zh - 1 > 2 { h - zh - 1 } else { 2 })
}

/// The lighting of one level.
pub struct LampPlan {
    /// Rectangles without working light.
    pub dark_zones: Vec<(i32, i32, i32, i32)>,
    /// Fixtures by cell, in row-major order.
    pub fixtures: Vec<((usize, usize), LampKind)>,
    /// Red emergency beacons (reactor act only).
    pub beacons: Vec<(usize, usize)>,
}

/// What [`plan_lamps`] promises of the lighting of `act` on the maze `g`.
pub open spec fn lamps_planned(g: Seq<Seq<bool>>, act: GameState, plan: LampPlan) -> bool {
    let zones = plan.dark_zones@;
    let fx = plan.fixtures@;
    let blackout = act is Act3_TheReactor;
    &&& zones.len() == DARK_ZONE_COUNT
    &&& forall|i: int| 0 <= i < zones.len() ==> zone_shape(#[trigger] zones[i], g[0].len() as int, g.len() as int)
    &&& forall|i: int| 0 <= i < fx.len() ==> on_step_grid((#[trigger] fx[i]).0, LAMP_STEP as int)
        && open_at(g, fx[i].0.0 as int, fx[i].0.1 as int)
    &&& forall|i: int, j: int| 0 <= i < j < fx.len() ==> row_major_before((#[trigger] fx[i]).0, (#[trigger] fx[j]).0)
    &&& forall|i: int| 0 <= i < fx.len() && (blackout || in_some_zone(zones, (#[trigger] fx[i]).0.0 as int, fx[i].0.1 as int))
        ==> fx[i].1 == LampKind::Broken
    &&& forall|i: int| 0 <= i < fx.len() && flicker_percent(act) == 0 ==> (#[trigger] fx[i]).1 != LampKind::Flicker
    &&& forall|x: int, y: int| #[trigger] open_at(g, x, y) && on_step_grid((x as usize, y as usize), LAMP_STEP as int)
        && !blackout && !in_some_zone(zones, x, y)
        ==> exists|i: int| 0 <= i < fx.len() && (#[trigger] fx[i]).0 == (x as usize, y as usize)
    &&& !blackout ==> fx.len() > 0 && fx[0].0 == (1usize, 1usize) && fx[0].1 != LampKind::Broken
    &&& blackout ==> plan.beacons@.len() <= MAX_BEACONS
    &&& !blackout ==> plan.beacons@.len() == 0
    &&& forall|i: int| 0 <= i < plan.beacons@.len() ==> on_step_grid(#[trigger] plan.beacons@[i], BEACON_STEP as int)
        && open_at(g, plan.beacons@[i].0 as int, plan.beacons@[i].1 as int)
    &&& blackout && plan.beacons@.len() < MAX_BEACONS ==>
        forall|x: int, y: int| #[trigger] open_at(g, x, y) && on_step_grid((x as usize, y as usize), BEACON_STEP as int)
            ==> plan.beacons@.contains((x as usize, y as usize))
    &&& forall|i: int, j: int| 0 <= i < j < plan.beacons@.len()
        ==> row_major_before(#[trigger] plan.beacons@[i], #[trigger] plan.beacons@[j])
    &&& forall|x: int, y: int, i: int| #![trigger open_at(g, x, y), plan.beacons@[i]]
        open_at(g, x, y) && on_step_grid((x as usize, y as usize), BEACON_STEP as int)
        && 0 <= i < plan.beacons@.len() && row_major_before((x as usize, y as usize), plan.beacons@[i])
        ==> plan.beacons@.contains((x as usize, y as usize))
}


/// Whether the cell `(x, y)` lies in one of the zones.
fn in_dark_zone(zones: &Vec<(i32, i32, i32, i32)>, x: i32, y: i32) -> (r: bool)
    ensures
        r == in_some_zone(zones@, x as int, y as int),
{
    let mut i: usize = 0;
    while i < zones.len()
        invariant
            i <= zones@.len(),
            forall|k: int| 0 <= k < i ==> !#[trigger] in_zone(zones@[k], x as int, y as int),
        decreases zones@.len() - i,
    {
        let z = zones[i];
        if z.0 <= x && x < z.2 && z.1 <= y && y < z.3 {
            assert(in_zone(zones@[i as int], x as int, y as int));
            return true;
        }
        i = i + 1;
    }
    false
}

/// Whether `(x, y)` is floor.
fn is_floor(maze: &Vec<Vec<bool>>, x: usize, y: usize) -> (r: bool)
    requires
        0 <= y < maze@.len(),
        0 <= x < grid_model(maze@)[y as int].len(),
    ensures
        r == open_at(grid_model(maze@), x as int, y as int),
{
    assert(grid_model(maze@)[y as int] == maze@[y as int]@);
    !maze[y][x]
}

/// Two dark zones: random rectangles 4 to 6 cells wide and 3 to 5 tall,
/// never reaching column 2 or less, so the spawn room stays lit, with
/// their corners drawn inside the map (see [`zone_shape`]).
fn plan_dark_zones(rng: &mut StdRng, w: usize, h: usize) -> (zones: Vec<(i32, i32, i32, i32)>)
    requires
        w <= i32::MAX,
        h <= i32::MAX,
    ensures
        zones@.len() == DARK_ZONE_COUNT,
        forall|i: int| 0 <= i < zones@.len() ==> zone_shape(#[trigger] zones@[i], w as int, h as int),
{
    let map_w = w as i32;
    let map_h = h as i32;
    let mut zones: Vec<(i32, i32, i32, i32)> = Vec::new();
    let mut k: usize = 0;
    while k < DARK_ZONE_COUNT
        invariant
            k <= DARK_ZONE_COUNT,
            map_w == w,
            map_h == h,
            w <= i32::MAX,
            h <= i32::MAX,
            zones@.len() == k,
            forall|i: int| 0 <= i < zones@.len() ==> zone_shape(#[trigger] zones@[i], w as int, h as int),
        decreases DARK_ZONE_COUNT - k,
    {
        let zw = gen_range_i32(rng, 4, 7);
        let zh = gen_range_i32(rng, 3, 6);
        let x_hi = if map_w - zw - 1 > 4 { map_w - zw - 1 } else { 4 };
        let y_hi = if map_h - zh - 1 > 2 { map_h - zh - 1 } else { 2 };
        let x0 = gen_range_i32(rng, 3, x_hi);
        let y0 = gen_range_i32(rng, 1, y_hi);
        zones.push((x0, y0, x0 + zw, y0 + zh));
        k = k + 1;
    }
    zones
}

/// Up to four red beacons on the first floor cells of the every-sixth-cell
/// grid, in row-major order: the beacons come in row-major order, every
/// such cell before a beacon has one, and with fewer than four every such
/// cell has one.
#[verifier::spinoff_prover]
#[verifier::rlimit(60)]
fn plan_beacons(maze: &Vec<Vec<bool>>, w: usize, h: usize) -> (beacons: Vec<(usize, usize)>)
    requires
        is_level_maze(maze@),
        w == grid_model(maze@)[0].len(),
        h == grid_model(maze@).len(),
    ensures
        beacons@.len() <= MAX_BEACONS,
        forall|i: int| 0 <= i < beacons@.len() ==> on_step_grid(#[trigger] beacons@[i], BEACON_STEP as int)
            && open_at(grid_model(maze@), beacons@[i].0 as int, beacons@[i].1 as int),
        beacons@.len() < MAX_BEACONS ==>
            forall|x: int, y: int| #[trigger] open_at(grid_model(maze@), x, y) && on_step_grid((x as usize, y as usize), BEACON_STEP as int)
                ==> beacons@.contains((x as usize, y as usize)),
        forall|i: int, j: int| 0 <= i < j < beacons@.len() ==> row_major_before(#[trigger] beacons@[i], #[trigger] beacons@[j]),
        forall|x: int, y: int, i: int| #![trigger open_at(grid_model(maze@), x, y), beacons@[i]]
            open_at(grid_model(maze@), x, y) && on_step_grid((x as usize, y as usize), BEACON_STEP as int)
            && 0 <= i < beacons@.len() && row_major_before((x as usize, y as usize), beacons@[i])
            ==> beacons@.contains((x as usize, y as usize)),
{
    let ghost g = grid_model(maze@);
    let mut beacons: Vec<(usize, usize)> = Vec::new();
    let mut cy: usize = 1;
    while cy < h && beacons.len() < MAX_BEACONS
        invariant
            g == grid_model(maze@),
            is_level_maze(maze@),
            w == g[0].len(),
            h == g.len(),
            cy % 6 == 1,
            beacons@.len() <= MAX_BEACONS,
            forall|i: int| 0 <= i < beacons@.len() ==> on_step_grid(#[trigger] beacons@[i], BEACON_STEP as int)
                && open_at(g, beacons@[i].0 as int, beacons@[i].1 as int),
            beacons@.len() < MAX_BEACONS ==>
                forall|x: int, y: int| #[trigger] open_at(g, x, y) && on_step_grid((x as usize, y as usize), BEACON_STEP as int)
                    && y < cy ==> beacons@.contains((x as usize, y as usize)),
            forall|i: int, j: int| 0 <= i < j < beacons@.len() ==> row_major_before(#[trigger] beacons@[i], #[trigger] beacons@[j]),
            forall|i: int| 0 <= i < beacons@.len() ==> (#[trigger] beacons@[i]).1 < cy,
            forall|x: int, y: int, i: int| #![trigger open_at(g, x, y), beacons@[i]]
                open_at(g, x, y) && on_step_grid((x as usize, y as usize), BEACON_STEP as int)
                && 0 <= i < beacons@.len() && row_major_before((x as usize, y as usize), beacons@[i])
                ==> beacons@.contains((x as usize, y as usize)),
        decreases h + 6 - cy,
    {
        let mut cx: usize = 1;
        while cx < w && beacons.len() < MAX_BEACONS
            invariant
                g == grid_model(maze@),
                is_level_maze(maze@),
                w == g[0].len(),
                h == g.len(),
                cy % 6 == 1,
                cy < h,
                cx % 6 == 1,
                beacons@.len() <= MAX_BEACONS,
                forall|i: int| 0 <= i < beacons@.len() ==> on_step_grid(#[trigger] beacons@[i], BEACON_STEP as int)
                    && open_at(g, beacons@[i].0 as int, beacons@[i].1 as int),
                beacons@.len() < MAX_BEACONS ==>
                    forall|x: int, y: int| #[trigger] open_at(g, x, y) && on_step_grid((x as usize, y as usize), BEACON_STEP as int)
                        && (y < cy || (y == cy && x < cx)) ==> beacons@.contains((x as usize, y as usize)),
                forall|i: int, j: int| 0 <= i < j < beacons@.len() ==> row_major_before(#[trigger] beacons@[i], #[trigger] beacons@[j]),
                forall|i: int| 0 <= i < beacons@.len() ==> (#[trigger] beacons@[i]).1 < cy
                    || (beacons@[i].1 == cy && beacons@[i].0 < cx),
                forall|x: int, y: int, i: int| #![trigger open_at(g, x, y), beacons@[i]]
                    open_at(g, x, y) && on_step_grid((x as usize, y as usize), BEACON_STEP as int)
                    && 0 <= i < beacons@.len() && row_major_before((x as usize, y as usize), beacons@[i])
                    ==> beacons@.contains((x as usize, y as usize)),
            decreases w + 6 - cx,
        {
            assert(g[cy as int].len() == w);
            if is_floor(maze, cx, cy) {
                let ghost before = beacons@;
                beacons.push((cx, cy));
                proof {
                    assert forall|i: int| 0 <= i < beacons@.len() implies on_step_grid(#[trigger] beacons@[i], BEACON_STEP as int)
                        && open_at(g, beacons@[i].0 as int, beacons@[i].1 as int) by {
                        if i < before.len() {
                            assert(beacons@[i] == before[i]);
                        }
                    }
                    assert forall|a: int, b: int| 0 <= a < b < beacons@.len() implies
                        row_major_before(#[trigger] beacons@[a], #[trigger] beacons@[b]) by {
                        assert(beacons@[a] == before[a]);
                        if b < before.len() {
                            assert(beacons@[b] == before[b]);
                        }
                    }
                    assert forall|k: int| 0 <= k < beacons@.len() implies (#[trigger] beacons@[k]).1 < cy
                        || (beacons@[k].1 == cy && beacons@[k].0 < cx + 6) by {
                        if k < before.len() {
                            assert(beacons@[k] == before[k]);
                        }
                    }
                    assert forall|x: int, y: int, k: int| #![trigger open_at(g, x, y), beacons@[k]]
                        open_at(g, x, y) && on_step_grid((x as usize, y as usize), BEACON_STEP as int)
                        && 0 <= k < beacons@.len() && row_major_before((x as usize, y as usize), beacons@[k])
                        implies beacons@.contains((x as usize, y as usize)) by {
                        let j = if k < before.len() {
                            assert(beacons@[k] == before[k]);
                            assert(before.contains((x as usize, y as usize)));
                            before.index_of((x as usize, y as usize))
                        } else {
                            assert(y < cy || (y == cy && x < cx));
                            assert(before.contains((x as usize, y as usize)));
                            before.index_of((x as usize, y as usize))
                        };
                        assert(beacons@[j] == before[j]);
                    }
                    if beacons@.len() < MAX_BEACONS {
                        assert forall|x: int, y: int| #[trigger] open_at(g, x, y) && on_step_grid((x as usize, y as usize), BEACON_STEP as int)
                            && (y < cy || (y == cy && x < cx + 6)) implies beacons@.contains((x as usize, y as usize)) by {
                            if y == cy && x >= cx {
                                assert(x == cx);
                                assert(beacons@[beacons@.len() - 1] == (x as usize, y as usize));
                            } else {
                                let j = before.index_of((x as usize, y as usize));
                                assert(beacons@[j] == before[j]);
                            }
                        }
                    }
                }
            }
            cx = cx + 6;
        }
        cy = cy + 6;
    }
    beacons
}


/// The kind of the fixture at a lamp cell outside dark zones, outside the
/// blackout: broken with chance [`BROKEN_PERCENT`] in a hundred (only where
/// a fixture may be broken), else flickering with the act's flicker
/// chance, else steady. A fixture that may not break is never broken; a
/// zero flicker chance never flickers; a certain one is never steady.
fn roll_fixture(rng: &mut StdRng, flicker: u32, may_break: bool) -> (kind: LampKind)
    requires
        flicker <= 100,
    ensures
        !may_break ==> kind != LampKind::Broken,
        flicker == 0 ==> kind != LampKind::Flicker,
        flicker == 100 ==> kind != LampKind::Steady,
{
    if may_break && gen_ratio(rng, BROKEN_PERCENT, 100) {
        LampKind::Broken
    } else if gen_ratio(rng, flicker, 100) {
        LampKind::Flicker
    } else {
        LampKind::Steady
    }
}

/// The lighting of the level of `act` on `maze`. Two dark zones are
/// chosen first. Then every floor cell of the every-third-cell grid gets,
/// in row-major order: in the reactor act's blackout, sometimes a broken
/// fixture; in a dark zone, sometimes a broken fixture; elsewhere always a
/// fixture, broken, flickering or steady at random, except that the spawn
/// room (1, 1) is always lit outside the blackout: its fixture, the first
/// one, is never broken. The blackout also hangs up to four red beacons.
pub fn plan_lamps(rng: &mut StdRng, maze: &Vec<Vec<bool>>, act: GameState) -> (plan: LampPlan)
    requires
        is_level_maze(maze@),
        grid_model(maze@).len() <= i32::MAX,
        grid_model(maze@)[0].len() <= i32::MAX,
    ensures
        lamps_planned(grid_model(maze@), act, plan),
{
    let ghost g = grid_model(maze@);
    assert(g[0] == maze@[0]@);
    let w = maze[0].len();
    let h = maze.len();
    let blackout = match act {
        GameState::Act3_TheReactor => true,
        _ => false,
    };
    let flicker: u32 = match act {
        GameState::Act1_TheDescent => 15,
        GameState::Act2_TheInsanity => 30,
        _ => 0,
    };
    let dark_zones = plan_dark_zones(rng, w, h);
    proof {
        if in_some_zone(dark_zones@, 1, 1) {
            let i = choose|i: int| 0 <= i < dark_zones@.len() && #[trigger] in_zone(dark_zones@[i], 1, 1);
            assert(3 <= dark_zones@[i].0);
        }
        assert(is_room(1, 1, w as int, h as int));
    }
    let mut fixtures: Vec<((usize, usize), LampKind)> = Vec::new();
    let mut cy: usize = 1;
    while cy < h
        invariant
            g == grid_model(maze@),
            is_level_maze(maze@),
            w == g[0].len(),
            h == g.len(),
            h <= i32::MAX,
            w <= i32::MAX,
            cy % 3 == 1,
            blackout == act is Act3_TheReactor,
            flicker == flicker_percent(act),
            forall|i: int| 0 <= i < fixtures@.len() ==> on_step_grid((#[trigger] fixtures@[i]).0, LAMP_STEP as int)
                && open_at(g, fixtures@[i].0.0 as int, fixtures@[i].0.1 as int)
                && fixtures@[i].0.1 < cy,
            forall|i: int, j: int| 0 <= i < j < fixtures@.len() ==> row_major_before((#[trigger] fixtures@[i]).0, (#[trigger] fixtures@[j]).0),
            forall|i: int| 0 <= i < fixtures@.len() && (blackout || in_some_zone(dark_zones@, (#[trigger] fixtures@[i]).0.0 as int, fixtures@[i].0.1 as int))
                ==> fixtures@[i].1 == LampKind::Broken,
            forall|i: int| 0 <= i < fixtures@.len() && flicker == 0 ==> (#[trigger] fixtures@[i]).1 != LampKind::Flicker,
            !in_some_zone(dark_zones@, 1, 1),
            open_at(g, 1, 1),
            !blackout && cy > 1 ==> fixtures@.len() > 0 && fixtures@[0].0 == (1usize, 1usize)
                && fixtures@[0].1 != LampKind::Broken,
            forall|x: int, y: int| #[trigger] open_at(g, x, y) && on_step_grid((x as usize, y as usize), LAMP_STEP as int)
                && !blackout && !in_some_zone(dark_zones@, x, y) && y < cy
                ==> exists|i: int| 0 <= i < fixtures@.len() && (#[trigger] fixtures@[i]).0 == (x as usize, y as usize),
        decreases h + 3 - cy,
    {
        let mut cx: usize = 1;
        while cx < w
            invariant
                g == grid_model(maze@),
                is_level_maze(maze@),
                w == g[0].len(),
                h == g.len(),
                h <= i32::MAX,
                w <= i32::MAX,
                cy % 3 == 1,
                cy < h,
                cx % 3 == 1,
                blackout == act is Act3_TheReactor,
                flicker == flicker_percent(act),
                forall|i: int| 0 <= i < fixtures@.len() ==> on_step_grid((#[trigger] fixtures@[i]).0, LAMP_STEP as int)
                    && open_at(g, fixtures@[i].0.0 as int, fixtures@[i].0.1 as int)
                    && (fixtures@[i].0.1 < cy || (fixtures@[i].0.1 == cy && fixtures@[i].0.0 < cx)),
                forall|i: int, j: int| 0 <= i < j < fixtures@.len() ==> row_major_before((#[trigger] fixtures@[i]).0, (#[trigger] fixtures@[j]).0),
                forall|i: int| 0 <= i < fixtures@.len() && (blackout || in_some_zone(dark_zones@, (#[trigger] fixtures@[i]).0.0 as int, fixtures@[i].0.1 as int))
                    ==> fixtures@[i].1 == LampKind::Broken,
                forall|i: int| 0 <= i < fixtures@.len() && flicker == 0 ==> (#[trigger] fixtures@[i]).1 != LampKind::Flicker,
                !in_some_zone(dark_zones@, 1, 1),
                open_at(g, 1, 1),
                !blackout && (cy > 1 || cx > 1) ==> fixtures@.len() > 0 && fixtures@[0].0 == (1usize, 1usize)
                    && fixtures@[0].1 != LampKind::Broken,
                forall|x: int, y: int| #[trigger] open_at(g, x, y) && on_step_grid((x as usize, y as usize), LAMP_STEP as int)
                    && !blackout && !in_some_zone(dark_zones@, x, y) && (y < cy || (y == cy && x < cx))
                    ==> exists|i: int| 0 <= i < fixtures@.len() && (#[trigger] fixtures@[i]).0 == (x as usize, y as usize),
            decreases w + 3 - cx,
        {
            assert(g[cy as int].len() == w);
            let ghost before = fixtures@;
            if is_floor(maze, cx, cy) {
                if blackout {
                    if gen_ratio(rng, BLACKOUT_FIXTURE_PERCENT, 100) {
                        fixtures.push(((cx, cy), LampKind::Broken));
                    }
                } else if in_dark_zone(&dark_zones, cx as i32, cy as i32) {
                    if gen_ratio(rng, DARK_ZONE_FIXTURE_PERCENT, 100) {
                        fixtures.push(((cx, cy), LampKind::Broken));
                    }
                } else {
                    let kind = roll_fixture(rng, flicker, !(cx == 1 && cy == 1));
                    fixtures.push(((cx, cy), kind));
                }
            }
            proof {
                assert forall|i: int| 0 <= i < before.len() implies #[trigger] fixtures@[i] == before[i] by {}
                assert forall|i: int, j: int| 0 <= i < j < fixtures@.len() implies
                    row_major_before((#[trigger] fixtures@[i]).0, (#[trigger] fixtures@[j]).0) by {
                    assert(fixtures@[i] == before[i]);
                    if j < before.len() {
                        assert(fixtures@[j] == before[j]);
                    }
                }
                assert forall|x: int, y: int| #[trigger] open_at(g, x, y) && on_step_grid((x as usize, y as usize), LAMP_STEP as int)
                    && !blackout && !in_some_zone(dark_zones@, x, y) && (y < cy || (y == cy && x < cx + 3))
                    implies exists|i: int| 0 <= i < fixtures@.len() && (#[trigger] fixtures@[i]).0 == (x as usize, y as usize) by {
                    if y == cy && x >= cx {
                        assert(x == cx);
                        assert(fixtures@[fixtures@.len() - 1].0 == (x as usize, y as usize));
                    } else {
                        let i = choose|i: int| 0 <= i < before.len() && (#[trigger] before[i]).0 == (x as usize, y as usize);
                        assert(fixtures@[i] == before[i]);
                    }
                }
            }
            cx = cx + 3;
        }
        cy = cy + 3;
    }
    let beacons = if blackout { plan_beacons(maze, w, h) } else { Vec::new() };
    LampPlan { dark_zones, fixtures, beacons }
}

/// The spawn room (1, 1) lies outside every dark zone of a lighting plan.
pub proof fn lemma_spawn_outside_dark_zones(g: Seq<Seq<bool>>, act: GameState, plan: LampPlan)
    requires
        lamps_planned(g, act, plan),
    ensures
        !in_some_zone(plan.dark_zones@, 1, 1),
{
    if in_some_zone(plan.dark_zones@, 1, 1) {
        let i = choose|i: int| 0 <= i < plan.dark_zones@.len() && #[trigger] in_zone(plan.dark_zones@[i], 1, 1);
        assert(3 <= plan.dark_zones@[i].0);
    }
}

} // verus!

use forgotten_walls::game::GameState;
use forgotten_walls::level::{
    cells_at_least, distance_from_spawn, farthest_cell, farthest_cells, floor_cells, place_fragments,
    plan_level, random_floor_spot,
};
use forgotten_walls::maze::generate_maze;
use rand::rngs::StdRng;
use rand::SeedableRng;

fn small_grid() -> Vec<Vec<bool>> {
    // # # # # #
    // # . . . #
    // # . # . #
    // # # # # #
    vec![
        vec![true, true, true, true, true],
        vec![true, false, false, false, true],
        vec![true, false, true, false, true],
        vec![true, true, true, true, true],
    ]
}

#[test]
fn floor_cells_in_row_major_order() {
    let cells = floor_cells(&small_grid());
    assert_eq!(cells, vec![(1, 1), (2, 1), (3, 1), (1, 2), (3, 2)]);
}

#[test]
fn manhattan_distance_from_spawn() {
    assert_eq!(distance_from_spawn((1, 1)), 0);
    assert_eq!(distance_from_spawn((4, 3)), 5);
    assert_eq!(distance_from_spawn((0, 0)), 2);
    assert_eq!(distance_from_spawn((19, 13)), 30);
}

#[test]
fn filter_by_distance_keeps_order() {
    let cells = vec![(1, 1), (5, 1), (2, 2), (9, 9), (1, 8)];
    assert_eq!(cells_at_least(&cells, 7), vec![(9, 9), (1, 8)]);
    assert_eq!(cells_at_least(&cells, 0), cells);
    assert!(cells_at_least(&cells, 100).is_empty());
}

#[test]
fn random_spot_prefers_far_cells() {
    let cells = vec![(1, 1), (2, 1), (9, 9), (1, 2)];
    for seed in 0..30u64 {
        let mut rng = StdRng::seed_from_u64(seed);
        assert_eq!(random_floor_spot(&mut rng, &cells, 10), Some((9, 9)));
        let spot = random_floor_spot(&mut rng, &cells, 0).unwrap();
        assert!(cells.contains(&spot));
    }
}

#[test]
fn random_spot_falls_back_to_any_floor_cell() {
    let cells = vec![(1, 1), (2, 1)];
    let mut seen = std::collections::HashSet::new();
    for seed in 0..40u64 {
        let mut rng = StdRng::seed_from_u64(seed);
        let spot = random_floor_spot(&mut rng, &cells, 50).unwrap();
        assert!(cells.contains(&spot));
        seen.insert(spot);
    }
    assert_eq!(seen.len(), 2, "both cells must come up");
    let mut rng = StdRng::seed_from_u64(0);
    assert_eq!(random_floor_spot(&mut rng, &Vec::new(), 0), None);
}

#[test]
fn farthest_cell_takes_the_last_of_equals() {
    let cells = vec![(1, 1), (3, 1), (1, 3), (2, 2)];
    assert_eq!(farthest_cell(&cells), Some((2, 2)));
    assert_eq!(farthest_cell(&Vec::new()), None);
}

#[test]
fn farthest_cells_break_ties_in_row_major_order() {
    let cells = vec![(1, 1), (2, 1), (3, 1), (1, 2), (2, 2), (1, 3)];
    // distances: 0, 1, 2, 1, 2, 2
    assert_eq!(farthest_cells(&cells, 2), vec![(3, 1), (2, 2)]);
    assert_eq!(farthest_cells(&cells, 4), vec![(3, 1), (2, 2), (1, 3), (2, 1)]);
    assert_eq!(farthest_cells(&cells, 10).len(), 6);
    assert!(farthest_cells(&cells, 0).is_empty());
}

#[test]
fn fragments_lie_far_in_a_game_maze() {
    for seed in 0..20u64 {
        let mut rng = StdRng::seed_from_u64(seed);
        let maze = generate_maze(&mut rng, 21, 15);
        let floor = floor_cells(&maze);
        let fragments = place_fragments(&mut rng, &floor);
        assert_eq!(fragments.len(), 5);
        for (i, c) in fragments.iter().enumerate() {
            assert!(floor.contains(c));
            assert!(distance_from_spawn(*c) >= 14);
            assert!(!fragments[..i].contains(c));
        }
    }
}

#[test]
fn fragments_take_the_farthest_cells_in_a_small_maze() {
    let floor = floor_cells(&small_grid());
    let mut rng = StdRng::seed_from_u64(5);
    let mut fragments = place_fragments(&mut rng, &floor);
    fragments.sort();
    assert_eq!(fragments, vec![(1, 1), (1, 2), (2, 1), (3, 1), (3, 2)]);
    let three = vec![(1, 1), (2, 1), (3, 1), (1, 2), (2, 2), (1, 3), (3, 3)];
    let mut picked = place_fragments(&mut rng, &three);
    picked.sort();
    assert_eq!(picked, vec![(1, 3), (2, 1), (2, 2), (3, 1), (3, 3)]);
}

#[test]
fn the_shuffle_really_shuffles() {
    let mut rng = StdRng::seed_from_u64(3);
    let maze = generate_maze(&mut rng, 21, 15);
    let floor = floor_cells(&maze);
    let far = cells_at_least(&floor, 14);
    let mut firsts = std::collections::HashSet::new();
    for seed in 0..30u64 {
        let mut rng = StdRng::seed_from_u64(seed);
        firsts.insert(place_fragments(&mut rng, &floor));
    }
    assert!(far.len() > 5);
    assert!(firsts.len() > 1, "different seeds must give different placements");
}

#[test]
fn act_layouts() {
    for seed in 0..10u64 {
        let mut rng = StdRng::seed_from_u64(seed);
        let maze = generate_maze(&mut rng, 21, 15);
        let floor = floor_cells(&maze);

        let p1 = plan_level(&mut rng, &maze, GameState::Act1_TheDescent);
        assert_eq!(p1.floor, floor);
        assert_eq!(p1.spawn_faces_east, !maze[1][2]);
        assert_eq!(p1.batteries.len(), 6);
        let lever = p1.lever.unwrap();
        assert!(distance_from_spawn(lever) >= 6);
        assert_eq!(p1.quest_items.iter().map(|q| q.0).collect::<Vec<_>>(), vec![0, 1]);
        assert!(p1.fragments.is_empty() && p1.cassettes.is_empty());
        assert!(p1.monster.is_none() && p1.elevator.is_none());

        let p2 = plan_level(&mut rng, &maze, GameState::Act2_TheInsanity);
        assert_eq!(p2.batteries.len(), 6);
        assert!(p2.lever.is_none());
        assert_eq!(p2.fragments.len(), 5);
        assert_eq!(p2.cassettes.iter().map(|c| c.0).collect::<Vec<_>>(), vec![0, 1, 2]);
        for (_, c) in &p2.cassettes {
            assert!(distance_from_spawn(*c) >= 8);
        }
        assert_eq!(p2.quest_items.iter().map(|q| q.0).collect::<Vec<_>>(), vec![2, 3]);
        assert!(distance_from_spawn(p2.monster.unwrap()) >= 10);
        assert!(p2.elevator.is_none());

        let p3 = plan_level(&mut rng, &maze, GameState::Act3_TheReactor);
        assert_eq!(p3.batteries.len(), 4);
        assert_eq!(p3.quest_items.iter().map(|q| q.0).collect::<Vec<_>>(), vec![4]);
        let lift = p3.elevator.unwrap();
        let best = floor.iter().map(|c| distance_from_spawn(*c)).max().unwrap();
        assert_eq!(distance_from_spawn(lift), best);
        assert!(p3.monster.is_some());

        let p0 = plan_level(&mut rng, &maze, GameState::MainMenu);
        assert!(p0.quest_items.is_empty() && p0.monster.is_none() && p0.lever.is_none());
        assert_eq!(p0.batteries.len(), 6);
    }
}

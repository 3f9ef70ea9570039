use forgotten_walls::game::GameState;
use forgotten_walls::lamps::{plan_lamps, LampKind};
use forgotten_walls::maze::generate_maze;
use rand::rngs::StdRng;
use rand::SeedableRng;

fn in_zone(z: (i32, i32, i32, i32), x: usize, y: usize) -> bool {
    let (x, y) = (x as i32, y as i32);
    z.0 <= x && x < z.2 && z.1 <= y && y < z.3
}

#[test]
fn lit_acts_cover_the_lamp_grid_outside_dark_zones() {
    for act in [GameState::Act1_TheDescent, GameState::Act2_TheInsanity] {
        for seed in 0..15u64 {
            let mut rng = StdRng::seed_from_u64(seed);
            let maze = generate_maze(&mut rng, 21, 15);
            let plan = plan_lamps(&mut rng, &maze, act);
            assert_eq!(plan.dark_zones.len(), 2);
            for z in &plan.dark_zones {
                assert!(z.0 >= 3 && z.1 >= 1);
                assert!((4..=6).contains(&(z.2 - z.0)));
                assert!((3..=5).contains(&(z.3 - z.1)));
                assert!(!in_zone(*z, 1, 1));
            }
            assert!(plan.beacons.is_empty());
            for ((x, y), kind) in &plan.fixtures {
                assert_eq!(x % 3, 1);
                assert_eq!(y % 3, 1);
                assert!(!maze[*y][*x]);
                if plan.dark_zones.iter().any(|z| in_zone(*z, *x, *y)) {
                    assert_eq!(*kind, LampKind::Broken);
                }
            }
            for y in (1..15).step_by(3) {
                for x in (1..21).step_by(3) {
                    let dark = plan.dark_zones.iter().any(|z| in_zone(*z, x, y));
                    if !maze[y][x] && !dark {
                        assert!(plan.fixtures.iter().any(|f| f.0 == (x, y)));
                    }
                }
            }
        }
    }
}

#[test]
fn reactor_act_is_blacked_out() {
    for seed in 0..15u64 {
        let mut rng = StdRng::seed_from_u64(seed);
        let maze = generate_maze(&mut rng, 21, 15);
        let plan = plan_lamps(&mut rng, &maze, GameState::Act3_TheReactor);
        assert!(plan.fixtures.iter().all(|f| f.1 == LampKind::Broken));
        assert!(plan.beacons.len() <= 4);
        let mut expected = Vec::new();
        for y in (1..15).step_by(6) {
            for x in (1..21).step_by(6) {
                if !maze[y][x] && expected.len() < 4 {
                    expected.push((x, y));
                }
            }
        }
        assert_eq!(plan.beacons, expected);
    }
}

#[test]
fn menu_has_no_flickering_lamps() {
    for seed in 0..10u64 {
        let mut rng = StdRng::seed_from_u64(seed);
        let maze = generate_maze(&mut rng, 21, 15);
        let plan = plan_lamps(&mut rng, &maze, GameState::MainMenu);
        assert!(plan.fixtures.iter().all(|f| f.1 != LampKind::Flicker));
    }
}

#[test]
fn lit_acts_have_all_three_kinds() {
    let mut kinds = std::collections::HashSet::new();
    for seed in 0..30u64 {
        let mut rng = StdRng::seed_from_u64(seed);
        let maze = generate_maze(&mut rng, 21, 15);
        let plan = plan_lamps(&mut rng, &maze, GameState::Act2_TheInsanity);
        for f in &plan.fixtures {
            kinds.insert(format!("{:?}", f.1));
        }
    }
    assert_eq!(kinds.len(), 3);
}

#[test]
fn the_spawn_room_is_always_lit() {
    for act in [GameState::Act1_TheDescent, GameState::Act2_TheInsanity] {
        for seed in 0..40u64 {
            let mut rng = StdRng::seed_from_u64(seed);
            let maze = generate_maze(&mut rng, 21, 15);
            let plan = plan_lamps(&mut rng, &maze, act);
            assert_eq!(plan.fixtures[0].0, (1, 1));
            assert_ne!(plan.fixtures[0].1, LampKind::Broken);
        }
    }
}

#[test]
fn dark_zones_are_drawn_inside_the_map() {
    for seed in 0..40u64 {
        let mut rng = StdRng::seed_from_u64(seed);
        let maze = generate_maze(&mut rng, 21, 15);
        let plan = plan_lamps(&mut rng, &maze, GameState::Act1_TheDescent);
        for z in &plan.dark_zones {
            let (zw, zh) = (z.2 - z.0, z.3 - z.1);
            assert!(z.0 < (21 - zw - 1).max(4));
            assert!(z.1 < (15 - zh - 1).max(2));
        }
    }
}

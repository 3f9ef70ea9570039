use forgotten_walls::maze::generate_maze;
use rand::rngs::StdRng;
use rand::SeedableRng;
use std::collections::VecDeque;

fn reachable_from_spawn(maze: &Vec<Vec<bool>>) -> Vec<Vec<bool>> {
    let h = maze.len();
    let w = maze[0].len();
    let mut seen = vec![vec![false; w]; h];
    let mut queue = VecDeque::new();
    seen[1][1] = true;
    queue.push_back((1usize, 1usize));
    while let Some((x, y)) = queue.pop_front() {
        let mut next = Vec::new();
        if x > 0 {
            next.push((x - 1, y));
        }
        if y > 0 {
            next.push((x, y - 1));
        }
        if x + 1 < w {
            next.push((x + 1, y));
        }
        if y + 1 < h {
            next.push((x, y + 1));
        }
        for (nx, ny) in next {
            if !maze[ny][nx] && !seen[ny][nx] {
                seen[ny][nx] = true;
                queue.push_back((nx, ny));
            }
        }
    }
    seen
}

fn check_maze(maze: &Vec<Vec<bool>>, w: usize, h: usize) {
    assert_eq!(maze.len(), h);
    for row in maze {
        assert_eq!(row.len(), w);
    }
    for y in 0..h {
        for x in 0..w {
            if x == 0 || y == 0 || x == w - 1 || y == h - 1 {
                assert!(maze[y][x], "border cell ({x}, {y}) must be a wall");
            }
            if x % 2 == 1 && y % 2 == 1 {
                assert!(!maze[y][x], "room ({x}, {y}) must be floor");
            }
            if x % 2 == 0 && y % 2 == 0 {
                assert!(maze[y][x], "pillar ({x}, {y}) must be a wall");
            }
        }
    }
    let rooms = ((w - 1) / 2) * ((h - 1) / 2);
    let floor = maze.iter().map(|row| row.iter().filter(|wall| !**wall).count()).sum::<usize>();
    assert!(2 * rooms - 1 <= floor && floor <= 3 * rooms - 1, "floor cells {floor} for {rooms} rooms");
    let seen = reachable_from_spawn(maze);
    for y in 0..h {
        for x in 0..w {
            if !maze[y][x] {
                assert!(seen[y][x], "floor cell ({x}, {y}) must be reachable from spawn");
            }
        }
    }
}

#[test]
fn game_sized_mazes_are_well_formed() {
    for seed in 0..40u64 {
        let mut rng = StdRng::seed_from_u64(seed);
        let maze = generate_maze(&mut rng, 21, 15);
        check_maze(&maze, 21, 15);
        assert!(!maze[1][2] || !maze[2][1], "spawn must open east or south");
    }
}

#[test]
fn odd_sizes_of_all_shapes_are_well_formed() {
    for (w, h) in [(3usize, 3usize), (5, 3), (3, 5), (7, 9), (31, 5), (11, 11)] {
        for seed in 0..5u64 {
            let mut rng = StdRng::seed_from_u64(seed * 7 + w as u64);
            let maze = generate_maze(&mut rng, w, h);
            check_maze(&maze, w, h);
        }
    }
}

#[test]
fn smallest_maze_is_the_spawn_room_alone() {
    let mut rng = StdRng::seed_from_u64(1);
    let maze = generate_maze(&mut rng, 3, 3);
    let expected = vec![
        vec![true, true, true],
        vec![true, false, true],
        vec![true, true, true],
    ];
    assert_eq!(maze, expected);
}

#[test]
fn one_row_corridor_is_fully_open() {
    let mut rng = StdRng::seed_from_u64(2);
    let maze = generate_maze(&mut rng, 7, 3);
    assert_eq!(maze[1], vec![true, false, false, false, false, false, true]);
    assert_eq!(maze[0], vec![true; 7]);
    assert_eq!(maze[2], vec![true; 7]);
}

#[test]
fn the_same_seed_gives_the_same_maze() {
    let mut a = StdRng::seed_from_u64(99);
    let mut b = StdRng::seed_from_u64(99);
    assert_eq!(generate_maze(&mut a, 21, 15), generate_maze(&mut b, 21, 15));
}

#[test]
fn braiding_opens_walls_between_rooms() {
    // A perfect maze on 10 x 7 rooms has exactly 69 carved walls between
    // rooms; braiding can only add to that.
    let mut extra_seen = false;
    for seed in 0..20u64 {
        let mut rng = StdRng::seed_from_u64(seed);
        let maze = generate_maze(&mut rng, 21, 15);
        let mut passages = 0;
        for y in 1..14 {
            for x in 1..20 {
                if (x + y) % 2 == 1 && !maze[y][x] {
                    passages += 1;
                }
            }
        }
        assert!(passages >= 69);
        if passages > 69 {
            extra_seen = true;
        }
    }
    assert!(extra_seen, "some dead end must have been braided");
}

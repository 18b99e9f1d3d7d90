use matahatan::{
    maze_from_seed_and_kind, MazeGrid, MazeKind, MazeSpec, DIR_E, DIR_N, DIR_S, DIR_W, MAZE_X,
    MAZE_Y,
};

fn fixed_seed(byte: u8) -> Vec<u8> {
    vec![byte; 32]
}

fn generate(seed: &Vec<u8>, kind: MazeKind) -> MazeGrid {
    maze_from_seed_and_kind(seed, kind).expect("generation should succeed")
}

#[test]
fn generation_deterministic_ellers() {
    let seed = fixed_seed(7);
    let a = generate(&seed, MazeKind::Ellers);
    let b = generate(&seed, MazeKind::Ellers);
    assert!(a.same_as(&b));
}

#[test]
fn generation_deterministic_backtracking() {
    let seed = fixed_seed(42);
    let a = generate(&seed, MazeKind::Backtracking);
    let b = generate(&seed, MazeKind::Backtracking);
    assert!(a.same_as(&b));
}

#[test]
fn generation_deterministic_growing_tree() {
    let seed = fixed_seed(3);
    let a = generate(&seed, MazeKind::GrowingTree);
    let b = generate(&seed, MazeKind::GrowingTree);
    assert!(a.same_as(&b));
}

#[test]
fn generation_deterministic_prims() {
    let seed = fixed_seed(9);
    let a = generate(&seed, MazeKind::Prims);
    let b = generate(&seed, MazeKind::Prims);
    assert!(a.same_as(&b));
}

#[test]
fn different_seeds_differ() {
    // Not a guarantee in principle, but two fixed seeds giving the same
    // 25 x 25 maze would mean the seed is ignored.
    let a = generate(&fixed_seed(1), MazeKind::Backtracking);
    let b = generate(&fixed_seed(2), MazeKind::Backtracking);
    assert!(!a.same_as(&b));
}

#[test]
fn from_string_deterministic() {
    let s1 = MazeSpec::from_string(&String::from("abc"), MazeKind::Backtracking);
    let s2 = MazeSpec::from_string(&String::from("abc"), MazeKind::Backtracking);
    assert!(s1 == s2);
    assert_eq!(s1.seed, s2.seed);
}

#[test]
fn from_string_known_digest() {
    // The 256-bit digest of "abc" is a published test vector.
    let spec = MazeSpec::from_string(&String::from("abc"), MazeKind::Backtracking);
    let expected: [u8; 32] = [
        0xba, 0x78, 0x16, 0xbf, 0x8f, 0x01, 0xcf, 0xea, 0x41, 0x41, 0x40, 0xde, 0x5d, 0xae, 0x22,
        0x23, 0xb0, 0x03, 0x61, 0xa3, 0x96, 0x17, 0x7a, 0x9c, 0xb4, 0x10, 0xff, 0x61, 0xf2, 0x00,
        0x15, 0xad,
    ];
    assert_eq!(spec.seed.as_slice(), expected.as_slice());
}

#[test]
fn from_string_reproduces_maze() {
    let s1 = MazeSpec::from_string(&String::from("abc"), MazeKind::Backtracking);
    let s2 = MazeSpec::from_string(&String::from("abc"), MazeKind::Backtracking);
    let a = generate(&s1.seed, s1.kind);
    let b = generate(&s2.seed, s2.kind);
    assert!(a.same_as(&b));
}

#[test]
fn maze_spec_equality_detects_staleness() {
    let a = MazeSpec::from_string(&String::from("abc"), MazeKind::Backtracking);
    let b = MazeSpec::from_string(&String::from("abc"), MazeKind::Prims);
    let c = MazeSpec::from_string(&String::from("abd"), MazeKind::Backtracking);
    assert!(a != b);
    assert!(a != c);
}

#[test]
fn random_spec_is_well_formed() {
    let spec = MazeSpec::random();
    assert_eq!(spec.seed.len(), 32);
}

/// Scenario: seed "test" with recursive backtracking must give one fully
/// connected maze with its single goal cell within bounds.
#[test]
fn scenario_seed_test_backtracking() {
    let spec = MazeSpec::from_string(&String::from("test"), MazeKind::Backtracking);
    let maze = generate(&spec.seed, spec.kind);
    assert!(maze.goal_x < MAZE_X);
    assert!(maze.goal_y < MAZE_Y);

    // Breadth-first walk over passages: every cell must be reached.
    let mut visited = vec![false; MAZE_X * MAZE_Y];
    let mut queue: Vec<(usize, usize)> = vec![(0, 0)];
    visited[0] = true;
    let mut reached = 1usize;
    while let Some((x, y)) = queue.pop() {
        let neighbours = [
            (DIR_N, x as isize, y as isize - 1),
            (DIR_E, x as isize + 1, y as isize),
            (DIR_S, x as isize, y as isize + 1),
            (DIR_W, x as isize - 1, y as isize),
        ];
        for (d, nx, ny) in neighbours {
            if maze.has_passage(x, y, d)
                && nx >= 0
                && ny >= 0
                && (nx as usize) < MAZE_X
                && (ny as usize) < MAZE_Y
            {
                let idx = (ny as usize) * MAZE_X + nx as usize;
                if !visited[idx] {
                    visited[idx] = true;
                    reached += 1;
                    queue.push((nx as usize, ny as usize));
                }
            }
        }
    }
    assert_eq!(reached, MAZE_X * MAZE_Y);
}

#[test]
fn passages_are_symmetric() {
    // A passage east of one cell is the west passage of its neighbour.
    let maze = generate(&fixed_seed(42), MazeKind::Backtracking);
    for y in 0..MAZE_Y {
        for x in 0..MAZE_X - 1 {
            assert_eq!(
                maze.has_passage(x, y, DIR_E),
                maze.has_passage(x + 1, y, DIR_W)
            );
        }
    }
    for y in 0..MAZE_Y - 1 {
        for x in 0..MAZE_X {
            assert_eq!(
                maze.has_passage(x, y, DIR_S),
                maze.has_passage(x, y + 1, DIR_N)
            );
        }
    }
}

#[test]
fn from_config_uses_seed_string() {
    let config = matahatan::Config {
        gui: false,
        stdio: false,
        stick: false,
        framerate: 0,
        seed: Some(String::from("abc")),
        kind: MazeKind::Prims,
    };
    let from_config = MazeSpec::from_config(&config);
    let direct = MazeSpec::from_string(&String::from("abc"), MazeKind::Prims);
    assert!(from_config == direct);
}

#[test]
fn duplicate_copies_the_spec() {
    let spec = MazeSpec::from_string(&String::from("copy me"), MazeKind::Ellers);
    let copy = spec.duplicate();
    assert!(spec == copy);
}

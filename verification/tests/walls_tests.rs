use matahatan::{
    build_walls, maze_from_seed_and_kind, MazeGrid, MazeKind, MazeSpec, Wall, HALF_CELL, MAZE_X,
    MAZE_Y, SCALE, WALL_HALF_LONG, WALL_HALF_THIN,
};

/// Rebuilding the collision world from an unchanged maze spec yields the
/// identical wall set.
#[test]
fn collision_world_rebuild_is_idempotent() {
    let spec = MazeSpec::from_string(&String::from("rebuild"), MazeKind::GrowingTree);
    let maze1 = maze_from_seed_and_kind(&spec.seed, spec.kind).unwrap();
    let maze2 = maze_from_seed_and_kind(&spec.seed, spec.kind).unwrap();
    let walls1 = build_walls(&maze1);
    let walls2 = build_walls(&maze2);
    assert_eq!(walls1, walls2);
}

#[test]
fn closed_grid_gets_every_wall() {
    let grid = MazeGrid { passages: vec![false; 4 * MAZE_X * MAZE_Y], goal_x: 0, goal_y: 0 };
    let walls = build_walls(&grid);
    // Two walls per cell (west and north), plus one east boundary wall per
    // row and one south boundary wall per column.
    assert_eq!(walls.len(), 2 * MAZE_X * MAZE_Y + MAZE_X + MAZE_Y);
    // The first wall covers the west edge of the first cell.
    assert_eq!(
        walls[0],
        Wall { cx: 0, cy: HALF_CELL, hx: WALL_HALF_THIN, hy: WALL_HALF_LONG }
    );
    // The second covers its north edge.
    assert_eq!(
        walls[1],
        Wall { cx: HALF_CELL, cy: 0, hx: WALL_HALF_LONG, hy: WALL_HALF_THIN }
    );
    // The last wall is the south boundary of the last column.
    assert_eq!(
        walls[walls.len() - 1],
        Wall {
            cx: (MAZE_X as i64 - 1) * SCALE + HALF_CELL,
            cy: MAZE_Y as i64 * SCALE,
            hx: WALL_HALF_LONG,
            hy: WALL_HALF_THIN,
        }
    );
}

#[test]
fn open_grid_gets_only_boundary_walls() {
    // Even a fully open grid keeps its unconditional east and south
    // boundary walls, so the agent can never leave the world.
    let grid = MazeGrid { passages: vec![true; 4 * MAZE_X * MAZE_Y], goal_x: 0, goal_y: 0 };
    let walls = build_walls(&grid);
    assert_eq!(walls.len(), MAZE_X + MAZE_Y);
}

#[test]
fn generated_maze_has_sealed_boundary() {
    // The explicit boundary pass plus the generator's own edges must wall
    // off the whole perimeter for every strategy: 25 west walls on the
    // left, 25 north walls on top, and the unconditional east and south
    // boundary passes. Eller's algorithm in particular carves a passage
    // out of the bottom row, which the unconditional pass must cover.
    for kind in [
        MazeKind::Ellers,
        MazeKind::Backtracking,
        MazeKind::GrowingTree,
        MazeKind::Prims,
    ] {
        check_sealed(kind);
    }
}

fn check_sealed(kind: MazeKind) {
    let spec = MazeSpec::from_string(&String::from("test"), kind);
    let maze = maze_from_seed_and_kind(&spec.seed, spec.kind).unwrap();
    let walls = build_walls(&maze);
    for i in 0..MAZE_Y as i64 {
        let west = Wall { cx: 0, cy: i * SCALE + HALF_CELL, hx: WALL_HALF_THIN, hy: WALL_HALF_LONG };
        let north = Wall { cx: i * SCALE + HALF_CELL, cy: 0, hx: WALL_HALF_LONG, hy: WALL_HALF_THIN };
        let east = Wall {
            cx: MAZE_X as i64 * SCALE,
            cy: i * SCALE + HALF_CELL,
            hx: WALL_HALF_THIN,
            hy: WALL_HALF_LONG,
        };
        let south = Wall {
            cx: i * SCALE + HALF_CELL,
            cy: MAZE_Y as i64 * SCALE,
            hx: WALL_HALF_LONG,
            hy: WALL_HALF_THIN,
        };
        assert!(walls.contains(&west));
        assert!(walls.contains(&north));
        assert!(walls.contains(&east));
        assert!(walls.contains(&south));
    }
}

//! The collision world: a static set of axis-aligned wall rectangles built
//! from a maze's passage flags.
//!
//! For every cell only the west and north edges are inspected (east and south
//! are covered by the neighbouring cell's west and north edge); an edge
//! without a passage gets a thin wall centred on it. The grid's outer east
//! and south boundary is walled unconditionally — some generators carve a
//! passage on the last row or column that would otherwise lead out of the
//! grid. The whole set is a pure function of the maze, built in one fixed
//! order, and is rebuilt from scratch whenever the `MazeSpec` changes.

use vstd::prelude::*;

use crate::fx::SCALE;
use crate::maze::{MazeGrid, DIR_N, DIR_W, MAZE_X, MAZE_Y};

verus! {

/// Half of the long side of a wall rectangle, in micro-units.
pub const WALL_HALF_LONG: i64 = 600000;

/// Half of the thin side of a wall rectangle, in micro-units.
pub const WALL_HALF_THIN: i64 = 100000;

/// Half a cell, in micro-units.
pub const HALF_CELL: i64 = 500000;

/// One static axis-aligned wall collider: centre and half-extents,
/// in micro-units.
#[derive(Copy, Clone, PartialEq, Eq, Structural, Debug)]
pub struct Wall {
    /// Centre, x.
    pub cx: i64,
    /// Centre, y.
    pub cy: i64,
    /// Half-extent along x.
    pub hx: i64,
    /// Half-extent along y.
    pub hy: i64,
}

/// The wall covering one cell edge: the west edge of cell `(ix, iy)` when
/// `vertical`, else its north edge. The east and south boundary walls are the
/// west and north edges of the phantom column `ix == 25` and row `iy == 25`.
pub open spec fn wall_at(ix: int, iy: int, vertical: bool) -> Wall {
    if vertical {
        Wall {
            cx: (ix * SCALE) as i64,
            cy: (iy * SCALE + HALF_CELL) as i64,
            hx: WALL_HALF_THIN,
            hy: WALL_HALF_LONG,
        }
    } else {
        Wall {
            cx: (ix * SCALE + HALF_CELL) as i64,
            cy: (iy * SCALE) as i64,
            hx: WALL_HALF_LONG,
            hy: WALL_HALF_THIN,
        }
    }
}

/// The walls contributed by cell `(ix, iy)`: west edge first, then north.
pub open spec fn cell_walls(m: &MazeGrid, ix: int, iy: int) -> Seq<Wall> {
    let west = if !m.passage_at(ix, iy, DIR_W as int) {
        seq![wall_at(ix, iy, true)]
    } else {
        Seq::<Wall>::empty()
    };
    let north = if !m.passage_at(ix, iy, DIR_N as int) {
        seq![wall_at(ix, iy, false)]
    } else {
        Seq::<Wall>::empty()
    };
    west + north
}

/// The walls of the first `k` cells in build order (`ix` outer, `iy` inner).
pub open spec fn walls_upto(m: &MazeGrid, k: int) -> Seq<Wall>
    decreases k,
{
    if k <= 0 {
        Seq::<Wall>::empty()
    } else {
        walls_upto(m, k - 1) + cell_walls(m, (k - 1) / (MAZE_Y as int), (k - 1) % (MAZE_Y as int))
    }
}

/// The east boundary walls of the first `k` rows: one per row,
/// unconditionally, so the perimeter is sealed even when a generator
/// carves a passage that would lead out of the grid.
pub open spec fn east_walls_upto(k: int) -> Seq<Wall>
    decreases k,
{
    if k <= 0 {
        Seq::<Wall>::empty()
    } else {
        east_walls_upto(k - 1) + seq![wall_at(MAZE_X as int, k - 1, true)]
    }
}

/// The south boundary walls of the first `k` columns: one per column,
/// unconditionally.
pub open spec fn south_walls_upto(k: int) -> Seq<Wall>
    decreases k,
{
    if k <= 0 {
        Seq::<Wall>::empty()
    } else {
        south_walls_upto(k - 1) + seq![wall_at(k - 1, MAZE_Y as int, false)]
    }
}

/// The full wall set of a maze: all cells in build order, then the east
/// boundary, then the south boundary.
pub open spec fn spec_walls(m: &MazeGrid) -> Seq<Wall> {
    walls_upto(m, (MAZE_X * MAZE_Y) as int) + east_walls_upto(MAZE_Y as int) + south_walls_upto(
        MAZE_X as int,
    )
}

/// Every wall the builder can emit lies within the grid and has positive,
/// bounded half-extents.
proof fn lemma_wall_at_wf(ix: int, iy: int, vertical: bool)
    requires
        0 <= ix <= MAZE_X,
        0 <= iy <= MAZE_Y,
    ensures
        crate::physics::wall_wf(wall_at(ix, iy, vertical)),
{
}

proof fn lemma_walls_upto_wf(m: &MazeGrid, k: int)
    requires
        0 <= k <= MAZE_X * MAZE_Y,
    ensures
        crate::physics::walls_wf(walls_upto(m, k)),
    decreases k,
{
    if k > 0 {
        lemma_walls_upto_wf(m, k - 1);
        let ix = (k - 1) / (MAZE_Y as int);
        let iy = (k - 1) % (MAZE_Y as int);
        vstd::arithmetic::div_mod::lemma_div_pos_is_pos(k - 1, MAZE_Y as int);
        vstd::arithmetic::div_mod::lemma_mod_bound(k - 1, MAZE_Y as int);
        assert(ix <= MAZE_X as int - 1) by {
            vstd::arithmetic::div_mod::lemma_div_is_ordered(k - 1, (MAZE_X * MAZE_Y) as int - 1, MAZE_Y as int);
            vstd::arithmetic::div_mod::lemma_fundamental_div_mod_converse(
                (MAZE_X * MAZE_Y) as int - 1,
                MAZE_Y as int,
                MAZE_X as int - 1,
                MAZE_Y as int - 1,
            );
        };
        lemma_wall_at_wf(ix, iy, true);
        lemma_wall_at_wf(ix, iy, false);
        assert(forall|t: int|
            0 <= t < cell_walls(m, ix, iy).len() ==> crate::physics::wall_wf(
                #[trigger] cell_walls(m, ix, iy)[t],
            ));
    }
}

proof fn lemma_east_walls_wf(k: int)
    requires
        0 <= k <= MAZE_Y,
    ensures
        crate::physics::walls_wf(east_walls_upto(k)),
    decreases k,
{
    if k > 0 {
        lemma_east_walls_wf(k - 1);
        lemma_wall_at_wf(MAZE_X as int, k - 1, true);
    }
}

proof fn lemma_south_walls_wf(k: int)
    requires
        0 <= k <= MAZE_X,
    ensures
        crate::physics::walls_wf(south_walls_upto(k)),
    decreases k,
{
    if k > 0 {
        lemma_south_walls_wf(k - 1);
        lemma_wall_at_wf(k - 1, MAZE_Y as int, false);
    }
}

/// The complete wall set of a maze is well formed.
proof fn lemma_spec_walls_wf(m: &MazeGrid)
    ensures
        crate::physics::walls_wf(spec_walls(m)),
{
    lemma_walls_upto_wf(m, (MAZE_X * MAZE_Y) as int);
    lemma_east_walls_wf(MAZE_Y as int);
    lemma_south_walls_wf(MAZE_X as int);
}

proof fn lemma_walls_upto_congruent(m1: &MazeGrid, m2: &MazeGrid, k: int)
    requires
        m1.passages@ == m2.passages@,
    ensures
        walls_upto(m1, k) == walls_upto(m2, k),
    decreases k,
{
    if k > 0 {
        lemma_walls_upto_congruent(m1, m2, k - 1);
    }
}

/// The wall set is a function of the passage flags alone: two grids with
/// the same flags give the same walls.
pub proof fn lemma_spec_walls_congruent(m1: &MazeGrid, m2: &MazeGrid)
    requires
        m1.passages@ == m2.passages@,
    ensures
        spec_walls(m1) == spec_walls(m2),
{
    lemma_walls_upto_congruent(m1, m2, (MAZE_X * MAZE_Y) as int);
}

/// Append the wall covering one cell edge (west when `vertical`, else north).
pub fn add_wall(walls: &mut Vec<Wall>, ix: usize, iy: usize, vertical: bool)
    requires
        ix <= MAZE_X,
        iy <= MAZE_Y,
    ensures
        final(walls)@ == old(walls)@ + seq![wall_at(ix as int, iy as int, vertical)],
{
    let w = if vertical {
        Wall {
            cx: (ix as i64) * SCALE,
            cy: (iy as i64) * SCALE + HALF_CELL,
            hx: WALL_HALF_THIN,
            hy: WALL_HALF_LONG,
        }
    } else {
        Wall {
            cx: (ix as i64) * SCALE + HALF_CELL,
            cy: (iy as i64) * SCALE,
            hx: WALL_HALF_LONG,
            hy: WALL_HALF_THIN,
        }
    };
    walls.push(w);
}

/// Append the walls of one cell: its west edge, then its north edge.
pub fn add_field(walls: &mut Vec<Wall>, m: &MazeGrid, ix: usize, iy: usize)
    requires
        m.wf(),
        ix < MAZE_X,
        iy < MAZE_Y,
    ensures
        final(walls)@ == old(walls)@ + cell_walls(m, ix as int, iy as int),
{
    let ghost before = walls@;
    if !m.has_passage(ix, iy, DIR_W) {
        add_wall(walls, ix, iy, true);
    }
    if !m.has_passage(ix, iy, DIR_N) {
        add_wall(walls, ix, iy, false);
    }
    proof {
        assert(walls@ =~= before + cell_walls(m, ix as int, iy as int));
    }
}

/// Build the complete wall set of a maze: every cell's west and north edge,
/// then the outer east and south boundary.
pub fn build_walls(m: &MazeGrid) -> (walls: Vec<Wall>)
    requires
        m.wf(),
    ensures
        walls@ == spec_walls(m),
        crate::physics::walls_wf(walls@),
{
    proof {
        lemma_spec_walls_wf(m);
    }
    let mut walls: Vec<Wall> = Vec::new();
    let mut ix: usize = 0;
    while ix < MAZE_X
        invariant
            m.wf(),
            ix <= MAZE_X,
            walls@ == walls_upto(m, ix as int * MAZE_Y as int),
        decreases MAZE_X - ix,
    {
        let mut iy: usize = 0;
        while iy < MAZE_Y
            invariant
                m.wf(),
                ix < MAZE_X,
                iy <= MAZE_Y,
                walls@ == walls_upto(m, ix as int * MAZE_Y as int + iy as int),
            decreases MAZE_Y - iy,
        {
            proof {
                let k = ix as int * MAZE_Y as int + iy as int;
                assert(k / (MAZE_Y as int) == ix as int && k % (MAZE_Y as int) == iy as int) by {
                    vstd::arithmetic::div_mod::lemma_fundamental_div_mod_converse(
                        k,
                        MAZE_Y as int,
                        ix as int,
                        iy as int,
                    );
                };
            }
            add_field(&mut walls, m, ix, iy);
            proof {
                assert(walls@ =~= walls_upto(m, ix as int * MAZE_Y as int + iy as int + 1));
            }
            iy += 1;
        }
        ix += 1;
    }
    let ghost main_walls = walls@;
    let mut iy: usize = 0;
    while iy < MAZE_Y
        invariant
            m.wf(),
            iy <= MAZE_Y,
            walls@ == main_walls + east_walls_upto(iy as int),
            main_walls == walls_upto(m, (MAZE_X * MAZE_Y) as int),
        decreases MAZE_Y - iy,
    {
        add_wall(&mut walls, MAZE_X, iy, true);
        proof {
            assert(walls@ =~= main_walls + east_walls_upto(iy as int + 1));
        }
        iy += 1;
    }
    let ghost east_done = walls@;
    let mut ix2: usize = 0;
    while ix2 < MAZE_X
        invariant
            m.wf(),
            ix2 <= MAZE_X,
            walls@ == east_done + south_walls_upto(ix2 as int),
            east_done == walls_upto(m, (MAZE_X * MAZE_Y) as int) + east_walls_upto(MAZE_Y as int),
        decreases MAZE_X - ix2,
    {
        add_wall(&mut walls, ix2, MAZE_Y, false);
        proof {
            assert(walls@ =~= east_done + south_walls_upto(ix2 as int + 1));
        }
        ix2 += 1;
    }
    proof {
        assert(walls@ =~= spec_walls(m));
    }
    walls
}

} // verus!

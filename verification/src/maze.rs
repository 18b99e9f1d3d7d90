//! The maze as the simulation sees it: a fixed 25 x 25 grid of cells, each
//! with four passage flags, and one goal cell.
//!
//! Both the simulation side and any presentation side rebuild this value from
//! the same `MazeSpec`, so it only holds plain data with a clear view.

use vstd::prelude::*;

verus! {

/// Width and height of every maze, in cells.
pub const MAZE_X: usize = 25;

/// Height of every maze, in cells (the grid is square).
pub const MAZE_Y: usize = 25;

/// Direction index: north.
pub const DIR_N: usize = 0;

/// Direction index: east.
pub const DIR_E: usize = 1;

/// Direction index: south.
pub const DIR_S: usize = 2;

/// Direction index: west.
pub const DIR_W: usize = 3;

/// The passage-flag slot of direction `d` of cell `(x, y)`.
pub open spec fn cell_slot(x: int, y: int, d: int) -> int {
    (y * (MAZE_X as int) + x) * 4 + d
}

/// A 25 x 25 grid of cells with per-direction passage flags and a goal cell.
///
/// `passages` holds four flags per cell in row-major cell order, directions
/// in the order north, east, south, west; `true` means the edge is open.
pub struct MazeGrid {
    /// Passage flags, `4 * MAZE_X * MAZE_Y` entries.
    pub passages: Vec<bool>,
    /// Column of the goal cell.
    pub goal_x: usize,
    /// Row of the goal cell.
    pub goal_y: usize,
}

impl MazeGrid {
    /// Structural well-formedness: full grid, goal within bounds.
    pub open spec fn wf(&self) -> bool {
        &&& self.passages@.len() == 4 * MAZE_X * MAZE_Y
        &&& self.goal_x < MAZE_X
        &&& self.goal_y < MAZE_Y
    }

    /// The passage flag of direction `d` of cell `(x, y)`.
    pub open spec fn passage_at(&self, x: int, y: int, d: int) -> bool {
        self.passages@[cell_slot(x, y, d)]
    }

    /// Whether cell `(x, y)` has a passage in direction `d`.
    pub fn has_passage(&self, x: usize, y: usize, d: usize) -> (r: bool)
        requires
            self.wf(),
            x < MAZE_X,
            y < MAZE_Y,
            d < 4,
        ensures
            r == self.passage_at(x as int, y as int, d as int),
    {
        self.passages[(y * MAZE_X + x) * 4 + d]
    }

    /// Whether this maze holds exactly the same passages and goal as `other`.
    pub fn same_as(&self, other: &MazeGrid) -> (r: bool)
        requires
            self.wf(),
            other.wf(),
        ensures
            r <==> (self.passages@ =~= other.passages@ && self.goal_x == other.goal_x
                && self.goal_y == other.goal_y),
    {
        if self.goal_x != other.goal_x || self.goal_y != other.goal_y {
            return false;
        }
        let n = self.passages.len();
        let mut i: usize = 0;
        while i < n
            invariant
                n == self.passages@.len(),
                n == other.passages@.len(),
                i <= n,
                forall|j: int| 0 <= j < i ==> self.passages@[j] == other.passages@[j],
            decreases n - i,
        {
            if self.passages[i] != other.passages[i] {
                return false;
            }
            i += 1;
        }
        true
    }
}

/// The cell one step in direction `d` from `(x, y)` leads to.
pub open spec fn neighbour_of(x: int, y: int, d: int) -> (int, int) {
    if d == DIR_N {
        (x, y - 1)
    } else if d == DIR_E {
        (x + 1, y)
    } else if d == DIR_S {
        (x, y + 1)
    } else {
        (x - 1, y)
    }
}

/// One open step of a path: both cells lie in the grid, they are
/// neighbours, and the passage between them is open on the side stepped
/// from.
pub open spec fn step_open(flags: Seq<bool>, a: (int, int), b: (int, int)) -> bool {
    &&& cell_in_range(a)
    &&& cell_in_range(b)
    &&& {
        ||| b == neighbour_of(a.0, a.1, DIR_N as int) && flags[cell_slot(
            a.0,
            a.1,
            DIR_N as int,
        )]
        ||| b == neighbour_of(a.0, a.1, DIR_E as int) && flags[cell_slot(
            a.0,
            a.1,
            DIR_E as int,
        )]
        ||| b == neighbour_of(a.0, a.1, DIR_S as int) && flags[cell_slot(
            a.0,
            a.1,
            DIR_S as int,
        )]
        ||| b == neighbour_of(a.0, a.1, DIR_W as int) && flags[cell_slot(
            a.0,
            a.1,
            DIR_W as int,
        )]
    }
}

/// A path of open steps from `a` to `b`.
pub open spec fn path_connects(
    flags: Seq<bool>,
    path: Seq<(int, int)>,
    a: (int, int),
    b: (int, int),
) -> bool {
    &&& path.len() >= 1
    &&& path[0] == a
    &&& path[path.len() - 1] == b
    &&& forall|i: int| 0 <= i < path.len() - 1 ==> step_open(flags, #[trigger] path[i], path[i + 1])
}

/// Whether cell `(x, y)` can be reached from the north-west cell through
/// open passages.
pub open spec fn cell_reachable(flags: Seq<bool>, x: int, y: int) -> bool {
    exists|path: Seq<(int, int)>| path_connects(flags, path, (0int, 0int), (x, y))
}

/// One connected component: every cell of the grid is reachable from the
/// north-west cell.
pub open spec fn flags_connected(flags: Seq<bool>) -> bool {
    forall|x: int, y: int|
        0 <= x < MAZE_X && 0 <= y < MAZE_Y ==> #[trigger] cell_reachable(flags, x, y)
}

/// Passage flags agree across every shared edge of neighbouring cells.
pub open spec fn flags_symmetric(flags: Seq<bool>) -> bool {
    &&& forall|x: int, y: int|
        0 <= x < MAZE_X - 1 && 0 <= y < MAZE_Y ==> #[trigger] flags[cell_slot(
            x,
            y,
            DIR_E as int,
        )] == flags[cell_slot(x + 1, y, DIR_W as int)]
    &&& forall|x: int, y: int|
        0 <= x < MAZE_X && 0 <= y < MAZE_Y - 1 ==> #[trigger] flags[cell_slot(
            x,
            y,
            DIR_S as int,
        )] == flags[cell_slot(x, y + 1, DIR_N as int)]
}


/// Whether a coordinate pair lies inside the grid.
pub open spec fn cell_in_range(c: (int, int)) -> bool {
    0 <= c.0 < MAZE_X && 0 <= c.1 < MAZE_Y
}

/// A cell of a one-flag-per-cell board, by coordinates.
pub open spec fn board_at(board: Seq<bool>, x: int, y: int) -> bool {
    board[y * (MAZE_X as int) + x]
}

/// A board is closed under open steps: every open passage out of a marked
/// cell leads to a marked cell.
pub open spec fn board_closed(flags: Seq<bool>, board: Seq<bool>) -> bool {
    forall|x: int, y: int, d: int|
        0 <= x < MAZE_X && 0 <= y < MAZE_Y && 0 <= d < 4 && #[trigger] board_at(board, x, y)
            && flags[#[trigger] cell_slot(x, y, d)] && cell_in_range(neighbour_of(x, y, d))
            ==> board_at(board, neighbour_of(x, y, d).0, neighbour_of(x, y, d).1)
}

/// How many flags of a board are set.
pub open spec fn count_true(s: Seq<bool>) -> int
    decreases s.len(),
{
    if s.len() == 0 {
        0int
    } else {
        count_true(s.drop_last()) + if s.last() {
            1int
        } else {
            0int
        }
    }
}

proof fn lemma_count_true_bounds(s: Seq<bool>)
    ensures
        0 <= count_true(s) <= s.len(),
    decreases s.len(),
{
    if s.len() > 0 {
        lemma_count_true_bounds(s.drop_last());
    }
}

/// Marking one unmarked flag raises the count by exactly one.
proof fn lemma_count_true_update(s: Seq<bool>, i: int)
    requires
        0 <= i < s.len(),
        !s[i],
    ensures
        count_true(s.update(i, true)) == count_true(s) + 1,
    decreases s.len(),
{
    let u = s.update(i, true);
    if i == s.len() - 1 {
        assert(u.drop_last() =~= s.drop_last());
    } else {
        assert(u.drop_last() =~= s.drop_last().update(i, true));
        lemma_count_true_update(s.drop_last(), i);
    }
}

/// A board with no flag set counts zero.
proof fn lemma_count_true_zero(s: Seq<bool>)
    requires
        forall|j: int| 0 <= j < s.len() ==> !s[j],
    ensures
        count_true(s) == 0,
    decreases s.len(),
{
    if s.len() > 0 {
        lemma_count_true_zero(s.drop_last());
    }
}

/// The north-west cell reaches itself.
proof fn lemma_origin_reachable(flags: Seq<bool>)
    ensures
        cell_reachable(flags, 0, 0),
{
    let p: Seq<(int, int)> = seq![(0int, 0int)];
    assert(path_connects(flags, p, (0int, 0int), (0int, 0int)));
}

/// Appending one open step to a path extends what it connects.
proof fn lemma_path_push(
    flags: Seq<bool>,
    p: Seq<(int, int)>,
    a: (int, int),
    b: (int, int),
    c: (int, int),
)
    requires
        path_connects(flags, p, a, b),
        step_open(flags, b, c),
    ensures
        path_connects(flags, p.push(c), a, c),
{
    let q = p.push(c);
    assert(q[0] == p[0]);
    assert(q[q.len() - 1] == c);
    assert forall|i: int| 0 <= i < q.len() - 1 implies step_open(
        flags,
        #[trigger] q[i],
        q[i + 1],
    ) by {
        if i == p.len() - 1 {
            assert(q[i] == p[i]);
            assert(p[i] == b);
            assert(q[i + 1] == c);
        } else {
            assert(q[i] == p[i]);
            assert(q[i + 1] == p[i + 1]);
            assert(step_open(flags, p[i], p[i + 1]));
        }
    }
}

/// A reachable cell's open neighbour is reachable: append one step to the
/// witness path.
#[verifier::spinoff_prover]
#[verifier::rlimit(100)]
proof fn lemma_step_reachable(flags: Seq<bool>, x: int, y: int, d: int, nx: int, ny: int)
    requires
        cell_reachable(flags, x, y),
        0 <= d < 4,
        0 <= x < MAZE_X,
        0 <= y < MAZE_Y,
        (nx, ny) == neighbour_of(x, y, d),
        0 <= nx < MAZE_X,
        0 <= ny < MAZE_Y,
        flags[cell_slot(x, y, d)],
    ensures
        cell_reachable(flags, nx, ny),
{
    let p = choose|p: Seq<(int, int)>| path_connects(flags, p, (0int, 0int), (x, y));
    assert(step_open(flags, (x, y), (nx, ny))) by {
        if d == DIR_N {
        } else if d == DIR_E {
        } else if d == DIR_S {
        } else {
            assert(d == DIR_W);
        }
    };
    lemma_path_push(flags, p, (0int, 0int), (x, y), (nx, ny));
}

/// A closed board that holds the north-west cell holds every cell a path
/// from it reaches.
proof fn lemma_closed_board_traps(
    flags: Seq<bool>,
    board: Seq<bool>,
    path: Seq<(int, int)>,
    b: (int, int),
)
    requires
        board_closed(flags, board),
        board_at(board, 0, 0),
        path_connects(flags, path, (0int, 0int), b),
        cell_in_range(b),
    ensures
        board_at(board, b.0, b.1),
    decreases path.len(),
{
    if path.len() == 1 {
        assert(b == (0int, 0int));
    } else {
        let prev = path[path.len() - 2];
        let prefix = path.drop_last();
        assert(step_open(flags, prev, b));
        assert(path_connects(flags, prefix, (0int, 0int), prev)) by {
            assert forall|i: int| 0 <= i < prefix.len() - 1 implies step_open(
                flags,
                #[trigger] prefix[i],
                prefix[i + 1],
            ) by {
                assert(prefix[i] == path[i] && prefix[i + 1] == path[i + 1]);
            }
        };
        lemma_closed_board_traps(flags, board, prefix, prev);
        // The last step names one of the four directions; the closed board
        // follows it.
        if b == neighbour_of(prev.0, prev.1, DIR_N as int) && flags[cell_slot(
            prev.0,
            prev.1,
            DIR_N as int,
        )] {
            assert(board_at(board, b.0, b.1));
        } else if b == neighbour_of(prev.0, prev.1, DIR_E as int) && flags[cell_slot(
            prev.0,
            prev.1,
            DIR_E as int,
        )] {
            assert(board_at(board, b.0, b.1));
        } else if b == neighbour_of(prev.0, prev.1, DIR_S as int) && flags[cell_slot(
            prev.0,
            prev.1,
            DIR_S as int,
        )] {
            assert(board_at(board, b.0, b.1));
        } else {
            assert(board_at(board, b.0, b.1));
        }
    }
}

/// One cell's closure under open steps, spelled out per direction: every
/// open passage out of a marked cell leads to a marked cell.
pub open spec fn cell_closed(flags: Seq<bool>, board: Seq<bool>, x: int, y: int) -> bool {
    &&& (flags[cell_slot(x, y, DIR_N as int)] && y > 0 ==> board_at(board, x, y - 1))
    &&& (flags[cell_slot(x, y, DIR_E as int)] && x + 1 < MAZE_X ==> board_at(board, x + 1, y))
    &&& (flags[cell_slot(x, y, DIR_S as int)] && y + 1 < MAZE_Y ==> board_at(board, x, y + 1))
    &&& (flags[cell_slot(x, y, DIR_W as int)] && x > 0 ==> board_at(board, x - 1, y))
}

/// Per-cell closure of every marked cell is closure of the whole board.
proof fn lemma_cells_closed_board_closed(flags: Seq<bool>, board: Seq<bool>)
    requires
        forall|x: int, y: int|
            0 <= x < MAZE_X && 0 <= y < MAZE_Y && #[trigger] board_at(board, x, y)
                ==> cell_closed(flags, board, x, y),
    ensures
        board_closed(flags, board),
{
    assert forall|x: int, y: int, d: int|
        0 <= x < MAZE_X && 0 <= y < MAZE_Y && 0 <= d < 4 && #[trigger] board_at(board, x, y)
            && flags[#[trigger] cell_slot(x, y, d)] && cell_in_range(neighbour_of(x, y, d))
        implies board_at(board, neighbour_of(x, y, d).0, neighbour_of(x, y, d).1) by {
        assert(cell_closed(flags, board, x, y));
        if d == DIR_N {
        } else if d == DIR_E {
        } else if d == DIR_S {
        } else {
            assert(d == DIR_W);
        }
    }
}

/// Marked cells are reachable.
pub open spec fn board_sound(flags: Seq<bool>, board: Seq<bool>) -> bool {
    forall|x: int, y: int|
        0 <= x < MAZE_X && 0 <= y < MAZE_Y && #[trigger] board_at(board, x, y)
            ==> cell_reachable(flags, x, y)
}

impl MazeGrid {
    /// Mark one neighbour of a marked cell if the passage to it is open
    /// and it is still unmarked; raise `changed` on a mark. Afterwards the
    /// neighbour is marked whenever the passage is open.
    #[verifier::rlimit(100)]
    fn mark_one(
        &self,
        visited: &mut Vec<bool>,
        changed: &mut bool,
        x: usize,
        y: usize,
        d: usize,
        nx: usize,
        ny: usize,
        Ghost(flags): Ghost<Seq<bool>>,
    )
        requires
            self.wf(),
            flags == self.passages@,
            old(visited)@.len() == MAZE_X * MAZE_Y,
            x < MAZE_X,
            y < MAZE_Y,
            nx < MAZE_X,
            ny < MAZE_Y,
            d < 4,
            (nx as int, ny as int) == neighbour_of(x as int, y as int, d as int),
            board_at(old(visited)@, x as int, y as int),
            board_sound(flags, old(visited)@),
        ensures
            final(visited)@.len() == MAZE_X * MAZE_Y,
            board_sound(flags, final(visited)@),
            forall|j: int| 0 <= j < MAZE_X * MAZE_Y && old(visited)@[j] ==> final(visited)@[j],
            *old(changed) ==> *final(changed),
            count_true(final(visited)@) >= count_true(old(visited)@),
            !*final(changed) ==> final(visited)@ == old(visited)@,
            !*old(changed) && *final(changed) ==> count_true(final(visited)@) >= count_true(
                old(visited)@,
            ) + 1,
            flags[cell_slot(x as int, y as int, d as int)] ==> board_at(
                final(visited)@,
                nx as int,
                ny as int,
            ),
    {
        if self.has_passage(x, y, d) {
            let ni = ny * MAZE_X + nx;
            if !visited[ni] {
                proof {
                    assert(cell_reachable(flags, x as int, y as int));
                    lemma_count_true_update(visited@, ni as int);
                    lemma_step_reachable(
                        flags,
                        x as int,
                        y as int,
                        d as int,
                        nx as int,
                        ny as int,
                    );
                }
                let ghost before = visited@;
                visited.set(ni, true);
                *changed = true;
                proof {
                    assert forall|ax: int, ay: int|
                        0 <= ax < MAZE_X && 0 <= ay < MAZE_Y && #[trigger] board_at(
                        visited@,
                        ax,
                        ay,
                    ) implies cell_reachable(flags, ax, ay) by {
                        if ay * (MAZE_X as int) + ax == ni as int {
                            assert(ax == nx as int && ay == ny as int);
                        } else {
                            assert(board_at(before, ax, ay));
                        }
                    }
                }
            }
        }
    }

    /// Mark every open, still unmarked neighbour of one marked cell, and
    /// raise `changed` for each mark. Afterwards the cell is closed: each
    /// of its open passages leads to a marked cell.
    fn mark_neighbours(
        &self,
        visited: &mut Vec<bool>,
        x: usize,
        y: usize,
        changed: &mut bool,
        Ghost(flags): Ghost<Seq<bool>>,
    )
        requires
            self.wf(),
            flags == self.passages@,
            old(visited)@.len() == MAZE_X * MAZE_Y,
            x < MAZE_X,
            y < MAZE_Y,
            board_at(old(visited)@, x as int, y as int),
            board_sound(flags, old(visited)@),
        ensures
            final(visited)@.len() == MAZE_X * MAZE_Y,
            board_sound(flags, final(visited)@),
            forall|j: int| 0 <= j < MAZE_X * MAZE_Y && old(visited)@[j] ==> final(visited)@[j],
            *old(changed) ==> *final(changed),
            count_true(final(visited)@) >= count_true(old(visited)@),
            count_true(final(visited)@) <= (MAZE_X * MAZE_Y) as int,
            !*final(changed) ==> final(visited)@ == old(visited)@,
            !*old(changed) && *final(changed) ==> count_true(final(visited)@) >= count_true(
                old(visited)@,
            ) + 1,
            cell_closed(flags, final(visited)@, x as int, y as int),
    {
        if y > 0 {
            self.mark_one(visited, changed, x, y, DIR_N, x, y - 1, Ghost(flags));
        }
        if x + 1 < MAZE_X {
            self.mark_one(visited, changed, x, y, DIR_E, x + 1, y, Ghost(flags));
        }
        if y + 1 < MAZE_Y {
            self.mark_one(visited, changed, x, y, DIR_S, x, y + 1, Ghost(flags));
        }
        if x > 0 {
            self.mark_one(visited, changed, x, y, DIR_W, x - 1, y, Ghost(flags));
        }
        proof {
            lemma_count_true_bounds(visited@);
        }
    }
}

impl MazeGrid {
    /// Whether every cell is reachable from the north-west cell: repeated
    /// marking sweeps to a fixpoint, checked exact in both directions.
    #[verifier::rlimit(100)]
    pub fn connected(&self) -> (r: bool)
        requires
            self.wf(),
        ensures
            r == flags_connected(self.passages@),
    {
        let ghost flags = self.passages@;
        let mut visited: Vec<bool> = Vec::new();
        let mut k: usize = 0;
        while k < MAZE_X * MAZE_Y
            invariant
                k <= MAZE_X * MAZE_Y,
                visited@.len() == k,
                forall|j: int| 0 <= j < k ==> !visited@[j],
            decreases MAZE_X * MAZE_Y - k,
        {
            visited.push(false);
            k += 1;
        }
        proof {
            lemma_count_true_zero(visited@);
            lemma_count_true_update(visited@, 0);
            lemma_origin_reachable(flags);
        }
        visited.set(0, true);
        let mut changed = true;
        while changed
            invariant
                self.wf(),
                flags == self.passages@,
                visited@.len() == MAZE_X * MAZE_Y,
                board_at(visited@, 0, 0),
                count_true(visited@) <= (MAZE_X * MAZE_Y) as int,
                board_sound(flags, visited@),
                !changed ==> board_closed(flags, visited@),
            decreases 2 * ((MAZE_X * MAZE_Y) as int - count_true(visited@)) + (if changed {
                1int
            } else {
                0int
            }),
        {
            let ghost c0 = count_true(visited@);
            changed = false;
            let mut y: usize = 0;
            while y < MAZE_Y
                invariant
                    self.wf(),
                    flags == self.passages@,
                    visited@.len() == MAZE_X * MAZE_Y,
                    board_at(visited@, 0, 0),
                    y <= MAZE_Y,
                    count_true(visited@) <= (MAZE_X * MAZE_Y) as int,
                    board_sound(flags, visited@),
                    changed ==> count_true(visited@) >= c0 + 1,
                    !changed ==> count_true(visited@) == c0,
                    !changed ==> forall|yy: int, xx: int|
                        0 <= yy < y && 0 <= xx < MAZE_X && #[trigger] board_at(visited@, xx, yy)
                            ==> cell_closed(flags, visited@, xx, yy),
                decreases MAZE_Y - y,
            {
                let mut x: usize = 0;
                while x < MAZE_X
                    invariant
                        self.wf(),
                        flags == self.passages@,
                        visited@.len() == MAZE_X * MAZE_Y,
                        board_at(visited@, 0, 0),
                        y < MAZE_Y,
                        x <= MAZE_X,
                        count_true(visited@) <= (MAZE_X * MAZE_Y) as int,
                        board_sound(flags, visited@),
                        changed ==> count_true(visited@) >= c0 + 1,
                        !changed ==> count_true(visited@) == c0,
                        !changed ==> forall|yy: int, xx: int|
                            0 <= yy < y && 0 <= xx < MAZE_X && #[trigger] board_at(
                                visited@,
                                xx,
                                yy,
                            ) ==> cell_closed(flags, visited@, xx, yy),
                        !changed ==> forall|xx: int|
                            0 <= xx < x && #[trigger] board_at(visited@, xx, y as int)
                                ==> cell_closed(flags, visited@, xx, y as int),
                    decreases MAZE_X - x,
                {
                    if visited[y * MAZE_X + x] {
                        self.mark_neighbours(&mut visited, x, y, &mut changed, Ghost(flags));
                    }
                    x += 1;
                }
                y += 1;
            }
            proof {
                if !changed {
                    lemma_cells_closed_board_closed(flags, visited@);
                }
            }
        }
        // The marking is closed; scan for a cell it never reached.
        let mut i: usize = 0;
        while i < MAZE_X * MAZE_Y
            invariant
                self.wf(),
                flags == self.passages@,
                visited@.len() == MAZE_X * MAZE_Y,
                i <= MAZE_X * MAZE_Y,
                board_at(visited@, 0, 0),
                board_closed(flags, visited@),
                board_sound(flags, visited@),
                forall|j: int| 0 <= j < i ==> visited@[j],
            decreases MAZE_X * MAZE_Y - i,
        {
            if !visited[i] {
                proof {
                    let y = i as int / (MAZE_X as int);
                    let x = i as int % (MAZE_X as int);
                    vstd::arithmetic::div_mod::lemma_fundamental_div_mod(i as int, MAZE_X as int);
                    vstd::arithmetic::div_mod::lemma_mod_bound(i as int, MAZE_X as int);
                    vstd::arithmetic::div_mod::lemma_div_pos_is_pos(i as int, MAZE_X as int);
                    vstd::arithmetic::div_mod::lemma_div_is_ordered(
                        i as int,
                        (MAZE_X * MAZE_Y) as int - 1,
                        MAZE_X as int,
                    );
                    vstd::arithmetic::div_mod::lemma_fundamental_div_mod_converse(
                        (MAZE_X * MAZE_Y) as int - 1,
                        MAZE_X as int,
                        MAZE_Y as int - 1,
                        MAZE_X as int - 1,
                    );
                    assert(y * (MAZE_X as int) + x == i);
                    assert(!board_at(visited@, x, y));
                    assert(!flags_connected(flags)) by {
                        if cell_reachable(flags, x, y) {
                            let p = choose|p: Seq<(int, int)>|
                                path_connects(flags, p, (0int, 0int), (x, y));
                            lemma_closed_board_traps(flags, visited@, p, (x, y));
                        }
                    };
                }
                return false;
            }
            i += 1;
        }
        proof {
            assert(flags_connected(flags)) by {
                assert forall|x: int, y: int|
                    0 <= x < MAZE_X && 0 <= y < MAZE_Y implies #[trigger] cell_reachable(
                    flags,
                    x,
                    y,
                ) by {
                    assert(visited@[y * (MAZE_X as int) + x]);
                    assert(board_at(visited@, x, y));
                }
            };
        }
        true
    }
}

/// The four maze-generation strategies offered by the external generator.
#[derive(Copy, Clone, PartialEq, Eq, Structural, Debug)]
pub enum MazeKind {
    /// Eller's algorithm.
    Ellers,
    /// Recursive backtracking.
    Backtracking,
    /// The growing-tree algorithm.
    GrowingTree,
    /// Prim's algorithm.
    Prims,
}

} // verus!

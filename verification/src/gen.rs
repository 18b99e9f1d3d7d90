//! The maze spec and the generator adapter.
//!
//! A `MazeSpec` — a 32-byte seed plus an algorithm choice — deterministically
//! defines a maze. The seed is either random or the digest of a user string;
//! generation is delegated to one of four external strategies, and the
//! produced maze is read back cell by cell into the crate's own grid value.
//!
//! Everything the external generator hands back is reached through a small
//! set of trusted wrappers. Their contracts are stated over one uninterpreted
//! model sequence per maze — `[width, height, goal_x, goal_y]` followed by
//! four passage flags per cell — and, per generation algorithm, one
//! uninterpreted model and one uninterpreted success flag, which is what
//! makes generation, its outcome included, provably deterministic.

use vstd::prelude::*;

use crate::maze::{flags_connected, flags_symmetric, MazeKind, MAZE_X, MAZE_Y};

use maze_generator::ellers_algorithm::EllersGenerator;
use maze_generator::growing_tree::GrowingTreeGenerator;
use maze_generator::prelude::{Coordinates, Direction, Generator};
use maze_generator::prims_algorithm::PrimsGenerator;
use maze_generator::recursive_backtracking::RbGenerator;

verus! {

/// The external maze type, declared so that values of it can be carried
/// through signatures; the crate never looks inside one directly.
#[verifier::external_type_specification]
#[verifier::external_body]
pub struct ExMaze(maze_generator::prelude::Maze);

/// What an externally generated maze holds, as one sequence of plain
/// integers: `[width, height, goal_x, goal_y]` followed by four passage
/// flags (nonzero means open) per cell, row-major, directions in the order
/// north, east, south, west.
pub uninterp spec fn maze_model(m: maze_generator::prelude::Maze) -> Seq<int>;

/// The model of the maze that Eller's algorithm generates from a seed
/// at a given size.
pub uninterp spec fn ellers_model(seed: Seq<u8>, width: int, height: int) -> Seq<int>;

/// The model of the maze that recursive backtracking generates from a seed
/// at a given size.
pub uninterp spec fn rb_model(seed: Seq<u8>, width: int, height: int) -> Seq<int>;

/// The model of the maze that the growing-tree algorithm generates from a
/// seed at a given size.
pub uninterp spec fn growing_model(seed: Seq<u8>, width: int, height: int) -> Seq<int>;

/// The model of the maze that Prim's algorithm generates from a seed at a
/// given size.
pub uninterp spec fn prims_model(seed: Seq<u8>, width: int, height: int) -> Seq<int>;

/// Whether Eller's algorithm, seeded and sized as given, generates a maze
/// rather than reporting an internal error.
pub uninterp spec fn ellers_ok(seed: Seq<u8>, width: int, height: int) -> bool;

/// Whether recursive backtracking, seeded and sized as given, generates a
/// maze rather than reporting an internal error.
pub uninterp spec fn rb_ok(seed: Seq<u8>, width: int, height: int) -> bool;

/// Whether the growing-tree algorithm, seeded and sized as given, generates
/// a maze rather than reporting an internal error.
pub uninterp spec fn growing_ok(seed: Seq<u8>, width: int, height: int) -> bool;

/// Whether Prim's algorithm, seeded and sized as given, generates a maze
/// rather than reporting an internal error.
pub uninterp spec fn prims_ok(seed: Seq<u8>, width: int, height: int) -> bool;

/// The digest of a byte string under the external 256-bit hash.
pub uninterp spec fn sha256_of(bytes: Seq<u8>) -> Seq<u8>;

/// A model sequence has the shape the wrappers promise for a maze of the
/// given size.
pub open spec fn model_wf(model: Seq<int>, width: int, height: int) -> bool {
    &&& model.len() == 4 + 4 * width * height
    &&& model[0] == width
    &&& model[1] == height
}

/// The passage flag of direction `d` of cell `(x, y)` in a model sequence;
/// false outside the grid.
pub open spec fn model_passage(model: Seq<int>, x: int, y: int, d: int) -> bool {
    if model.len() == 4 + 4 * model[0] * model[1] && 0 <= x < model[0] && 0 <= y < model[1] && 0
        <= d < 4 {
        model[4 + (y * model[0] + x) * 4 + d] != 0
    } else {
        false
    }
}

/// A model sequence's passage flags, as the grid will hold them.
pub open spec fn model_flags(model: Seq<int>) -> Seq<bool> {
    Seq::new((4 * MAZE_X * MAZE_Y) as nat, |j: int| model[4 + j] != 0)
}

/// Relies on `RbGenerator::new(Some(seed))` and `Generator::generate`:
/// seeded generation — success included — is a function of the seed and
/// size alone; a generated maze has the requested size and symmetric
/// passages (the graph is undirected). Connectivity is not trusted: the
/// crate checks it itself after reading the maze back. The size is pinned
/// to the one grid this crate uses: the generator's recursion depth and
/// size arithmetic are not vetted beyond it.
#[verifier::external_body]
fn gen_backtracking(seed: &Vec<u8>, width: i32, height: i32) -> (r: Option<
    maze_generator::prelude::Maze,
>)
    requires
        seed@.len() == 32,
        width == MAZE_X as i32,
        height == MAZE_Y as i32,
    ensures
        r is Some <==> rb_ok(seed@, width as int, height as int),
        r matches Some(m) ==> {
            &&& maze_model(m) == rb_model(seed@, width as int, height as int)
            &&& model_wf(maze_model(m), width as int, height as int)
            &&& flags_symmetric(model_flags(maze_model(m)))
        },
{
    let arr: [u8; 32] = match seed.as_slice().try_into() {
        Ok(a) => a,
        Err(_) => return None,
    };
    let mut g = RbGenerator::new(Some(arr));
    match Generator::generate(&mut g, width, height) {
        Ok(m) => Some(m),
        Err(_) => None,
    }
}

/// Relies on `EllersGenerator::new(Some(seed))` and `Generator::generate`:
/// as for recursive backtracking above.
#[verifier::external_body]
fn gen_ellers(seed: &Vec<u8>, width: i32, height: i32) -> (r: Option<
    maze_generator::prelude::Maze,
>)
    requires
        seed@.len() == 32,
        width == MAZE_X as i32,
        height == MAZE_Y as i32,
    ensures
        r is Some <==> ellers_ok(seed@, width as int, height as int),
        r matches Some(m) ==> {
            &&& maze_model(m) == ellers_model(seed@, width as int, height as int)
            &&& model_wf(maze_model(m), width as int, height as int)
            &&& flags_symmetric(model_flags(maze_model(m)))
        },
{
    let arr: [u8; 32] = match seed.as_slice().try_into() {
        Ok(a) => a,
        Err(_) => return None,
    };
    let mut g = EllersGenerator::new(Some(arr));
    match Generator::generate(&mut g, width, height) {
        Ok(m) => Some(m),
        Err(_) => None,
    }
}

/// Relies on `GrowingTreeGenerator::new(Some(seed))` and
/// `Generator::generate`: as for recursive backtracking above.
#[verifier::external_body]
fn gen_growing_tree(seed: &Vec<u8>, width: i32, height: i32) -> (r: Option<
    maze_generator::prelude::Maze,
>)
    requires
        seed@.len() == 32,
        width == MAZE_X as i32,
        height == MAZE_Y as i32,
    ensures
        r is Some <==> growing_ok(seed@, width as int, height as int),
        r matches Some(m) ==> {
            &&& maze_model(m) == growing_model(seed@, width as int, height as int)
            &&& model_wf(maze_model(m), width as int, height as int)
            &&& flags_symmetric(model_flags(maze_model(m)))
        },
{
    let arr: [u8; 32] = match seed.as_slice().try_into() {
        Ok(a) => a,
        Err(_) => return None,
    };
    let mut g = GrowingTreeGenerator::new(Some(arr));
    match Generator::generate(&mut g, width, height) {
        Ok(m) => Some(m),
        Err(_) => None,
    }
}

/// Relies on `PrimsGenerator::new(Some(seed))` and `Generator::generate`:
/// as for recursive backtracking above.
#[verifier::external_body]
fn gen_prims(seed: &Vec<u8>, width: i32, height: i32) -> (r: Option<
    maze_generator::prelude::Maze,
>)
    requires
        seed@.len() == 32,
        width == MAZE_X as i32,
        height == MAZE_Y as i32,
    ensures
        r is Some <==> prims_ok(seed@, width as int, height as int),
        r matches Some(m) ==> {
            &&& maze_model(m) == prims_model(seed@, width as int, height as int)
            &&& model_wf(maze_model(m), width as int, height as int)
            &&& flags_symmetric(model_flags(maze_model(m)))
        },
{
    let arr: [u8; 32] = match seed.as_slice().try_into() {
        Ok(a) => a,
        Err(_) => return None,
    };
    let mut g = PrimsGenerator::new(Some(arr));
    match Generator::generate(&mut g, width, height) {
        Ok(m) => Some(m),
        Err(_) => None,
    }
}

/// Relies on `Maze::get_field` and `Field::has_passage`: a field exists
/// exactly for coordinates within the maze's size and reports the passages
/// of its cell.
#[verifier::external_body]
fn ext_has_passage(m: &maze_generator::prelude::Maze, x: i32, y: i32, d: u8) -> (r: bool)
    requires
        d < 4,
    ensures
        r == model_passage(maze_model(*m), x as int, y as int, d as int),
{
    let dir = match d {
        0 => Direction::North,
        1 => Direction::East,
        2 => Direction::South,
        _ => Direction::West,
    };
    match m.get_field(&Coordinates { x, y }) {
        Some(f) => f.has_passage(&dir),
        None => false,
    }
}

/// Relies on the public `goal` coordinates of the generated maze.
#[verifier::external_body]
fn ext_goal(m: &maze_generator::prelude::Maze) -> (r: (i32, i32))
    ensures
        r.0 as int == maze_model(*m)[2],
        r.1 as int == maze_model(*m)[3],
{
    (m.goal.x, m.goal.y)
}

/// Relies on `sha2::Sha256` through the `Digest` trait: a 32-byte digest
/// that is a function of the input bytes alone.
#[verifier::external_body]
fn sha256_digest(data: &[u8]) -> (r: Vec<u8>)
    ensures
        r@ == sha256_of(data@),
        r@.len() == 32,
{
    <sha2::Sha256 as sha2::Digest>::digest(data).as_slice().to_vec()
}

/// Relies on `rand::rng` and `Rng::fill_bytes`: fills a fresh buffer with
/// 32 bytes; nothing is promised of their values.
#[verifier::external_body]
fn random_seed_bytes() -> (r: Vec<u8>)
    ensures
        r@.len() == 32,
{
    let mut rng = rand::rng();
    let mut buf = vec![0u8; 32];
    rand::Rng::fill_bytes(&mut rng, &mut buf);
    buf
}

/// Relies on `rand::random_range`: returns a value of the given (nonempty)
/// range; nothing is promised of which one.
#[verifier::external_body]
fn random_below(bound: u8) -> (r: u8)
    requires
        bound >= 1,
    ensures
        r < bound,
{
    rand::random_range(0..bound)
}

/// The model of the maze that a given algorithm generates from a seed at
/// the fixed 25 x 25 size.
pub open spec fn generated_model(seed: Seq<u8>, kind: MazeKind) -> Seq<int> {
    match kind {
        MazeKind::Ellers => ellers_model(seed, MAZE_X as int, MAZE_Y as int),
        MazeKind::Backtracking => rb_model(seed, MAZE_X as int, MAZE_Y as int),
        MazeKind::GrowingTree => growing_model(seed, MAZE_X as int, MAZE_Y as int),
        MazeKind::Prims => prims_model(seed, MAZE_X as int, MAZE_Y as int),
    }
}

/// Whether the chosen algorithm generates a maze from this seed at the
/// fixed 25 x 25 size.
pub open spec fn generated_ok(seed: Seq<u8>, kind: MazeKind) -> bool {
    match kind {
        MazeKind::Ellers => ellers_ok(seed, MAZE_X as int, MAZE_Y as int),
        MazeKind::Backtracking => rb_ok(seed, MAZE_X as int, MAZE_Y as int),
        MazeKind::GrowingTree => growing_ok(seed, MAZE_X as int, MAZE_Y as int),
        MazeKind::Prims => prims_ok(seed, MAZE_X as int, MAZE_Y as int),
    }
}

/// Whether a grid holds exactly the passages and goal of a model sequence.
pub open spec fn grid_matches_model(mz: crate::maze::MazeGrid, model: Seq<int>) -> bool {
    &&& forall|j: int|
        0 <= j < 4 * MAZE_X * MAZE_Y ==> (mz.passages@[j] <==> model[4 + j] != 0)
    &&& mz.goal_x as int == model[2]
    &&& mz.goal_y as int == model[3]
}

/// The full outcome of maze generation for a (seed, kind) pair: success is
/// decided by the generator's outcome, the goal bounds and the (checked,
/// not trusted) connectivity of what it generated; each failure is
/// reported as its own error, exactly; and a produced grid holds exactly
/// the generated passages and goal, connected and symmetric.
pub open spec fn matches_generation(
    r: Result<crate::maze::MazeGrid, MazeGenError>,
    seed: Seq<u8>,
    kind: MazeKind,
) -> bool {
    let model = generated_model(seed, kind);
    &&& (r is Ok <==> generated_ok(seed, kind) && model_goal_in_bounds(model)
        && flags_connected(model_flags(model)))
    &&& ((r matches Err(e) && e == MazeGenError::GeneratorFailed) <==> !generated_ok(seed, kind))
    &&& ((r matches Err(e) && e == MazeGenError::GoalOutOfBounds) <==> generated_ok(seed, kind)
        && !model_goal_in_bounds(model))
    &&& ((r matches Err(e) && e == MazeGenError::Disconnected) <==> generated_ok(seed, kind)
        && model_goal_in_bounds(model) && !flags_connected(model_flags(model)))
    &&& (r matches Ok(mz) ==> {
        &&& mz.wf()
        &&& grid_matches_model(mz, model)
        &&& flags_connected(mz.passages@)
        &&& flags_symmetric(mz.passages@)
    })
}

/// Whether a model sequence places the goal inside the grid.
pub open spec fn model_goal_in_bounds(model: Seq<int>) -> bool {
    &&& 0 <= model[2] < MAZE_X
    &&& 0 <= model[3] < MAZE_Y
}

/// Why a maze could not be produced.
#[derive(Copy, Clone, PartialEq, Eq, Structural, Debug)]
pub enum MazeGenError {
    /// The external generation strategy reported a failure.
    GeneratorFailed,
    /// The generated maze places its goal outside the grid.
    GoalOutOfBounds,
    /// The generated maze is not one connected component.
    Disconnected,
}

impl MazeGenError {
    /// A short diagnostic text.
    pub fn message(&self) -> (r: &'static str)
    {
        match self {
            MazeGenError::GeneratorFailed => "maze generation failed",
            MazeGenError::GoalOutOfBounds => "generated maze has no goal cell within bounds",
            MazeGenError::Disconnected => "generated maze is not fully connected",
        }
    }
}

/// Read an externally generated maze back into the crate's own grid.
/// Succeeds if and only if the generated goal lies within the grid.
fn convert_maze(m: &maze_generator::prelude::Maze) -> (r: Result<
    crate::maze::MazeGrid,
    MazeGenError,
>)
    requires
        model_wf(maze_model(*m), MAZE_X as int, MAZE_Y as int),
    ensures
        r matches Ok(mz) ==> mz.wf() && grid_matches_model(mz, maze_model(*m)),
        r matches Err(e) ==> e == MazeGenError::GoalOutOfBounds,
        r is Ok <==> model_goal_in_bounds(maze_model(*m)),
{
    let ghost model = maze_model(*m);
    let (gx, gy) = ext_goal(m);
    if !(0 <= gx && gx < MAZE_X as i32 && 0 <= gy && gy < MAZE_Y as i32) {
        return Err(MazeGenError::GoalOutOfBounds);
    }
    let mut passages: Vec<bool> = Vec::new();
    let mut y: usize = 0;
    while y < MAZE_Y
        invariant
            model == maze_model(*m),
            model_wf(model, MAZE_X as int, MAZE_Y as int),
            y <= MAZE_Y,
            passages@.len() == y * (4 * MAZE_X),
            forall|j: int| 0 <= j < passages@.len() ==> (passages@[j] <==> model[4 + j] != 0),
        decreases MAZE_Y - y,
    {
        let mut x: usize = 0;
        while x < MAZE_X
            invariant
                model == maze_model(*m),
                model_wf(model, MAZE_X as int, MAZE_Y as int),
                y < MAZE_Y,
                x <= MAZE_X,
                passages@.len() == y * (4 * MAZE_X) + x * 4,
                forall|j: int| 0 <= j < passages@.len() ==> (passages@[j] <==> model[4 + j] != 0),
            decreases MAZE_X - x,
        {
            let mut d: usize = 0;
            while d < 4
                invariant
                    model == maze_model(*m),
                    model_wf(model, MAZE_X as int, MAZE_Y as int),
                    y < MAZE_Y,
                    x < MAZE_X,
                    d <= 4,
                    passages@.len() == y * (4 * MAZE_X) + x * 4 + d,
                    forall|j: int|
                        0 <= j < passages@.len() ==> (passages@[j] <==> model[4 + j] != 0),
                decreases 4 - d,
            {
                let p = ext_has_passage(m, x as i32, y as i32, d as u8);
                proof {
                    assert(model_passage(model, x as int, y as int, d as int) == (model[4 + (
                    (y as int) * (MAZE_X as int) + x as int) * 4 + d as int] != 0));
                    assert(((y as int) * (MAZE_X as int) + x as int) * 4 + d as int == (y as int)
                        * (4 * MAZE_X as int) + (x as int) * 4 + d as int) by (nonlinear_arith);
                }
                passages.push(p);
                d += 1;
            }
            proof {
                assert((y as int) * (4 * MAZE_X as int) + (x as int) * 4 + 4 == (y as int) * (4
                    * MAZE_X as int) + (x as int + 1) * 4) by (nonlinear_arith);
            }
            x += 1;
        }
        proof {
            assert((y as int) * (4 * MAZE_X as int) + (MAZE_X as int) * 4 == (y as int + 1) * (4
                * MAZE_X as int)) by (nonlinear_arith);
        }
        y += 1;
    }
    proof {
        assert((MAZE_Y as int) * (4 * MAZE_X as int) == 4 * MAZE_X * MAZE_Y) by (nonlinear_arith);
    }
    let mz = crate::maze::MazeGrid { passages, goal_x: gx as usize, goal_y: gy as usize };
    Ok(mz)
}

/// Generate the maze that a seed and an algorithm choice define, and read
/// it into the crate's own grid. The whole outcome — success included — is
/// a function of the seed and the kind alone: it succeeds exactly when the
/// chosen generator does and the goal lands inside the grid, a generator
/// failure is reported as exactly `GeneratorFailed`, and a produced grid is
/// connected with symmetric passages. A failure is fatal to the run: no
/// valid world exists to simulate.
pub fn maze_from_seed_and_kind(seed: &Vec<u8>, kind: MazeKind) -> (r: Result<
    crate::maze::MazeGrid,
    MazeGenError,
>)
    requires
        seed@.len() == 32,
    ensures
        matches_generation(r, seed@, kind),
{
    let generated = match kind {
        MazeKind::Ellers => gen_ellers(seed, MAZE_X as i32, MAZE_Y as i32),
        MazeKind::Backtracking => gen_backtracking(seed, MAZE_X as i32, MAZE_Y as i32),
        MazeKind::GrowingTree => gen_growing_tree(seed, MAZE_X as i32, MAZE_Y as i32),
        MazeKind::Prims => gen_prims(seed, MAZE_X as i32, MAZE_Y as i32),
    };
    match generated {
        Some(m) => {
            let ghost model = generated_model(seed@, kind);
            match convert_maze(&m) {
                Ok(mz) => {
                    proof {
                        assert(mz.passages@ =~= model_flags(model)) by {
                            assert(forall|j: int|
                                0 <= j < 4 * MAZE_X * MAZE_Y ==> (#[trigger] mz.passages@[j]
                                    <==> model[4 + j] != 0));
                        };
                    }
                    // The generators' connectivity contract is checked, not
                    // trusted: a disconnected maze is a fatal outcome of
                    // its own.
                    if mz.connected() {
                        Ok(mz)
                    } else {
                        Err(MazeGenError::Disconnected)
                    }
                },
                Err(e) => Err(e),
            }
        },
        None => Err(MazeGenError::GeneratorFailed),
    }
}

/// GENERATION IS A FUNCTION OF SEED AND KIND, OUTCOME INCLUDED. Any two
/// results that meet the generation contract for one (seed, kind) pair —
/// as `maze_from_seed_and_kind` ensures of its result — agree on success,
/// hold bit-identical passages and goals when they carry grids, and report
/// the identical error otherwise.
pub proof fn lemma_generation_outcome_deterministic(
    r1: Result<crate::maze::MazeGrid, MazeGenError>,
    r2: Result<crate::maze::MazeGrid, MazeGenError>,
    seed: Seq<u8>,
    kind: MazeKind,
)
    requires
        matches_generation(r1, seed, kind),
        matches_generation(r2, seed, kind),
    ensures
        r1 is Ok <==> r2 is Ok,
        r1 is Ok && r2 is Ok ==> (r1->Ok_0).passages@ =~= (r2->Ok_0).passages@
            && (r1->Ok_0).goal_x == (r2->Ok_0).goal_x && (r1->Ok_0).goal_y == (r2->Ok_0).goal_y,
        r1 is Err && r2 is Err ==> r1->Err_0 == r2->Err_0,
{
    if r1 is Ok && r2 is Ok {
        lemma_generation_deterministic(r1.unwrap(), r2.unwrap(), seed, kind);
    }
    if r1 is Err && r2 is Err {
        let e1 = r1->Err_0;
        let e2 = r2->Err_0;
        match e1 {
            MazeGenError::GeneratorFailed => {
                assert(e2 == MazeGenError::GeneratorFailed);
            },
            MazeGenError::GoalOutOfBounds => {
                assert(e2 == MazeGenError::GoalOutOfBounds);
            },
            MazeGenError::Disconnected => {
                assert(e2 == MazeGenError::Disconnected);
            },
        }
    }
}

impl MazeKind {
    /// Draw one of the four strategies at random.
    pub fn random() -> (r: MazeKind) {
        match random_below(4) {
            0 => MazeKind::Ellers,
            1 => MazeKind::Backtracking,
            2 => MazeKind::GrowingTree,
            _ => MazeKind::Prims,
        }
    }
}

/// The seed and algorithm choice that deterministically define a maze.
/// Value equality decides whether a cached maze is stale.
pub struct MazeSpec {
    /// 32-byte generation seed.
    pub seed: Vec<u8>,
    /// The generation strategy.
    pub kind: MazeKind,
}

impl MazeSpec {
    /// The seed holds exactly 32 bytes.
    pub open spec fn wf(&self) -> bool {
        self.seed@.len() == 32
    }

    /// A spec with a random seed and a random algorithm.
    pub fn random() -> (r: MazeSpec)
        ensures
            r.wf(),
    {
        MazeSpec { seed: random_seed_bytes(), kind: MazeKind::random() }
    }

    /// The spec whose seed is the 256-bit digest of a user string: identical
    /// (string, kind) pairs always reproduce the identical maze.
    pub fn from_string(seed: &String, kind: MazeKind) -> (r: MazeSpec)
        ensures
            r.seed@ == sha256_of(vstd::utf8::encode_utf8(seed@)),
            r.kind == kind,
            r.wf(),
    {
        let bytes = sha256_digest(seed.as_str().as_bytes());
        MazeSpec { seed: bytes, kind }
    }

    /// An identical copy of this spec.
    pub fn duplicate(&self) -> (r: MazeSpec)
        ensures
            r.seed@ == self.seed@,
            r.kind == self.kind,
    {
        let mut seed: Vec<u8> = Vec::new();
        let n = self.seed.len();
        let mut i: usize = 0;
        while i < n
            invariant
                n == self.seed@.len(),
                i <= n,
                seed@ =~= self.seed@.take(i as int),
            decreases n - i,
        {
            seed.push(self.seed[i]);
            i += 1;
        }
        proof {
            assert(seed@ =~= self.seed@);
        }
        MazeSpec { seed, kind: self.kind }
    }
}

impl PartialEq for MazeSpec {
    /// Two specs are equal when they hold the same seed bytes and the same
    /// algorithm choice.
    fn eq(&self, other: &MazeSpec) -> (r: bool) {
        if self.kind != other.kind {
            return false;
        }
        if self.seed.len() != other.seed.len() {
            return false;
        }
        let n = self.seed.len();
        let mut i: usize = 0;
        while i < n
            invariant
                n == self.seed@.len(),
                n == other.seed@.len(),
                i <= n,
                forall|j: int| 0 <= j < i ==> self.seed@[j] == other.seed@[j],
            decreases n - i,
        {
            if self.seed[i] != other.seed[i] {
                return false;
            }
            i += 1;
        }
        proof {
            assert(self.seed@ =~= other.seed@);
        }
        true
    }
}

impl vstd::std_specs::cmp::PartialEqSpecImpl for MazeSpec {
    open spec fn obeys_eq_spec() -> bool {
        true
    }

    open spec fn eq_spec(&self, other: &MazeSpec) -> bool {
        self.seed@ == other.seed@ && self.kind == other.kind
    }
}

/// GENERATION IS DETERMINISTIC. Two grids generated from the same seed and
/// the same algorithm hold the same passages and the same goal.
pub proof fn lemma_generation_deterministic(
    m1: crate::maze::MazeGrid,
    m2: crate::maze::MazeGrid,
    seed: Seq<u8>,
    kind: MazeKind,
)
    requires
        m1.wf(),
        m2.wf(),
        grid_matches_model(m1, generated_model(seed, kind)),
        grid_matches_model(m2, generated_model(seed, kind)),
    ensures
        m1.passages@ =~= m2.passages@,
        m1.goal_x == m2.goal_x,
        m1.goal_y == m2.goal_y,
{
    let model = generated_model(seed, kind);
    assert forall|j: int| 0 <= j < m1.passages@.len() implies m1.passages@[j] == m2.passages@[j] by {
        assert(m1.passages@[j] <==> model[4 + j] != 0);
        assert(m2.passages@[j] <==> model[4 + j] != 0);
    }
}

/// SEEDING FROM A STRING IS DETERMINISTIC. Two specs derived from the same
/// character sequence and the same algorithm hold the same seed.
pub proof fn lemma_from_string_deterministic(
    s1: MazeSpec,
    s2: MazeSpec,
    text: Seq<char>,
    kind: MazeKind,
)
    requires
        s1.seed@ == sha256_of(vstd::utf8::encode_utf8(text)),
        s2.seed@ == sha256_of(vstd::utf8::encode_utf8(text)),
        s1.kind == kind,
        s2.kind == kind,
    ensures
        s1.seed@ == s2.seed@,
        s1.kind == s2.kind,
{
}

/// REBUILDING THE COLLISION WORLD IS IDEMPOTENT. Two grids generated from
/// one unchanged (seed, kind) pair produce the identical wall set.
pub proof fn lemma_collision_world_idempotent(
    m1: crate::maze::MazeGrid,
    m2: crate::maze::MazeGrid,
    seed: Seq<u8>,
    kind: MazeKind,
)
    requires
        m1.wf(),
        m2.wf(),
        grid_matches_model(m1, generated_model(seed, kind)),
        grid_matches_model(m2, generated_model(seed, kind)),
    ensures
        crate::walls::spec_walls(&m1) == crate::walls::spec_walls(&m2),
{
    lemma_generation_deterministic(m1, m2, seed, kind);
    crate::walls::lemma_spec_walls_congruent(&m1, &m2);
}

} // verus!

//! A maze-driving simulation core: a steerable agent with momentum moves
//! through a randomly generated grid maze under simplified 2D physics.
//!
//! All physical quantities are held in fixed-point micro-units (one unit of
//! the world, such as one maze cell or one radian, is `SCALE` micro-units),
//! which keeps every computation exact and deterministic.
//!
//! Maze generation is delegated to external generation strategies; hashing a
//! textual seed is delegated to an external digest. Everything else — the
//! collision world built from the maze, the per-tick physics step, the
//! line-oriented control protocol — is implemented and verified here.

mod fx;
mod gen;
mod maze;
mod physics;
mod proto;
mod sim;
mod trig;
mod walls;

pub use fx::SCALE;
pub use gen::{
    maze_from_seed_and_kind, MazeGenError, MazeSpec, lemma_collision_world_idempotent,
    lemma_from_string_deterministic, lemma_generation_deterministic,
    lemma_generation_outcome_deterministic,
};
pub use maze::{MazeGrid, MazeKind, DIR_E, DIR_N, DIR_S, DIR_W, MAZE_X, MAZE_Y};
pub use physics::{
    lemma_collision_tangent, lemma_resolution_sets_the_flag, lemma_speed_invariant,
    lemma_step_deterministic, simulation_step,
    SimulationConfig, SimulationState, V2, ACCELERATION_SCALER, BALL_RADIUS, MAX_VELOCITY,
    STEERING_SCALER,
};
pub use proto::{
    lemma_input_roundtrip, parse_input_line, render_input_line, render_maze_json,
    render_output_line, Input, Output,
};
pub use sim::{
    add_maze, input_step, next_phase, simulation_tick, Config, LocalState, LoopPhase, SharedState,
};
pub use trig::{HALF_PI_FX, PI_FX, TWO_PI_FX};
pub use walls::{add_field, add_wall, build_walls, Wall, HALF_CELL, WALL_HALF_LONG, WALL_HALF_THIN};


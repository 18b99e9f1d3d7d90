//! The simulation loop's decisions and the shared record the threads
//! exchange.
//!
//! The loop itself — sleeping, blocking reads, locking — lives with the
//! caller; this module holds the pure per-iteration work: take over the
//! freshly polled control inputs, run one physics tick, and decide the next
//! loop phase from the shutdown signal.

use vstd::prelude::*;

use crate::fx::{clamp_spec, fx_clamp, SCALE};
use crate::gen::MazeSpec;
use crate::maze::MazeGrid;
use crate::physics::{
    spec_step, simulation_step, SimulationConfig, SimulationState, walls_wf, ACCELERATION_SCALER,
    STEERING_SCALER,
};
use crate::proto::Input;
use crate::walls::{build_walls, spec_walls, Wall};

verus! {

/// The per-run startup choices, validated outside and handed in whole.
#[derive(Clone)]
pub struct Config {
    /// Whether a presentation side runs.
    pub gui: bool,
    /// Whether the external line protocol drives the run.
    pub stdio: bool,
    /// Whether a gamepad drives the run.
    pub stick: bool,
    /// Ticks per second in micro-Hz; zero means run flat-out.
    pub framerate: i64,
    /// The maze seed string, if one was given.
    pub seed: Option<String>,
    /// The maze generation strategy.
    pub kind: crate::maze::MazeKind,
}

impl SimulationConfig {
    /// The simulation parameters a startup config determines: the fixed
    /// steering and acceleration gains, the tick rate, and input shaping
    /// exactly when a human holds the stick.
    pub fn new(config: &Config) -> (r: SimulationConfig)
        requires
            config.framerate >= 0,
        ensures
            r == (SimulationConfig {
                framerate: config.framerate,
                steering_scaler: STEERING_SCALER,
                acceleration_scaler: ACCELERATION_SCALER,
                human: config.stick,
            }),
            r.wf(),
    {
        SimulationConfig {
            framerate: config.framerate,
            steering_scaler: STEERING_SCALER,
            acceleration_scaler: ACCELERATION_SCALER,
            human: config.stick,
        }
    }
}

impl MazeSpec {
    /// The maze spec a startup config determines: hashed from the seed
    /// string when one was given, fully random (seed and kind) otherwise.
    pub fn from_config(config: &Config) -> (r: MazeSpec)
        ensures
            r.wf(),
            config.seed matches Some(s) ==> r.seed@ == crate::gen::sha256_of(
                vstd::utf8::encode_utf8(s@),
            ) && r.kind == config.kind,
    {
        match &config.seed {
            Some(seed) => MazeSpec::from_string(seed, config.kind),
            None => MazeSpec::random(),
        }
    }
}

/// The state a control input leaves behind: fresh inputs are clamped into
/// `[-SCALE, SCALE]`; without fresh input the prior inputs persist.
pub open spec fn apply_input_spec(s: SimulationState, input: Option<Input>) -> SimulationState {
    match input {
        Some(inp) => SimulationState {
            steering: clamp_spec(inp.steering as int, SCALE as int) as i64,
            acceleration: clamp_spec(inp.acceleration as int, SCALE as int) as i64,
            ..s
        },
        None => s,
    }
}

/// Take over one tick's control inputs: clamp fresh values, keep prior
/// ones when none arrived.
pub fn input_step(sim: &mut SimulationState, input: Option<Input>)
    requires
        old(sim).wf(),
    ensures
        *final(sim) == apply_input_spec(*old(sim), input),
        final(sim).wf(),
{
    match input {
        Some(inp) => {
            sim.steering = fx_clamp(inp.steering, SCALE);
            sim.acceleration = fx_clamp(inp.acceleration, SCALE);
        },
        None => {},
    }
}

/// One loop iteration's compute part: apply the polled inputs, then run
/// the physics step against the collision world.
pub fn simulation_tick(
    walls: &Vec<Wall>,
    config: &SimulationConfig,
    sim: &mut SimulationState,
    input: Option<Input>,
)
    requires
        walls_wf(walls@),
        config.wf(),
        old(sim).wf(),
        old(sim).frame < i64::MAX,
    ensures
        *final(sim) == spec_step(apply_input_spec(*old(sim), input), *config, walls@),
        final(sim).wf(),
{
    input_step(sim, input);
    simulation_step(walls, config, sim);
}

/// The lifecycle of the simulation loop.
#[derive(Copy, Clone, PartialEq, Eq, Structural, Debug)]
pub enum LoopPhase {
    /// Ticks are being produced.
    Running,
    /// A shutdown signal was seen; no further physics runs.
    Stopping,
    /// The loop has returned.
    Stopped,
}

/// The next loop phase: a running loop keeps running until the shutdown
/// signal is seen, then stops; a stopping loop is done.
pub open spec fn next_phase_spec(p: LoopPhase, shutdown: bool) -> LoopPhase {
    match p {
        LoopPhase::Running => if shutdown {
            LoopPhase::Stopping
        } else {
            LoopPhase::Running
        },
        LoopPhase::Stopping => LoopPhase::Stopped,
        LoopPhase::Stopped => LoopPhase::Stopped,
    }
}

/// Advance the loop phase by one iteration's shutdown check.
pub fn next_phase(p: LoopPhase, shutdown: bool) -> (r: LoopPhase)
    ensures
        r == next_phase_spec(p, shutdown),
{
    match p {
        LoopPhase::Running => if shutdown {
            LoopPhase::Stopping
        } else {
            LoopPhase::Running
        },
        LoopPhase::Stopping => LoopPhase::Stopped,
        LoopPhase::Stopped => LoopPhase::Stopped,
    }
}

/// The simulation side's private world: the startup config, its own copy
/// of the maze, and the collision world built from it.
pub struct LocalState {
    /// The startup choices.
    pub config: Config,
    /// The maze this side derived from the shared `MazeSpec`.
    pub maze: MazeGrid,
    /// The static wall colliders; empty until `add_maze` builds them.
    pub walls: Vec<Wall>,
}

impl LocalState {
    /// A fresh local state with an empty collision world.
    pub fn new(config: &Config, maze: MazeGrid) -> (r: LocalState)
        ensures
            r.config == *config,
            r.maze == maze,
            r.walls@.len() == 0,
    {
        LocalState { config: clone_config(config), maze, walls: Vec::new() }
    }
}

/// Copy a startup config field by field.
fn clone_config(config: &Config) -> (r: Config)
    ensures
        r == *config,
{
    let seed = match &config.seed {
        Some(s) => Some(s.clone()),
        None => None,
    };
    proof {
        assert(seed == config.seed);
    }
    Config {
        gui: config.gui,
        stdio: config.stdio,
        stick: config.stick,
        framerate: config.framerate,
        seed,
        kind: config.kind,
    }
}

/// Build the collision world from the local maze: the wall set becomes
/// exactly the maze's wall function, whole and consistent.
pub fn add_maze(state: &mut LocalState)
    requires
        old(state).maze.wf(),
    ensures
        final(state).walls@ == spec_walls(&old(state).maze),
        walls_wf(final(state).walls@),
        final(state).maze == old(state).maze,
        final(state).config == old(state).config,
{
    state.walls = build_walls(&state.maze);
}

/// The one record the threads share: the maze spec, the latest published
/// kinematic snapshot, and the simulation parameters. The caller guards it
/// with its one lock and publishes whole-value snapshots only.
pub struct SharedState {
    /// What maze the run uses; equality decides staleness.
    pub maze_spec: MazeSpec,
    /// The latest published kinematic snapshot.
    pub simulation: SimulationState,
    /// The immutable simulation parameters.
    pub config: SimulationConfig,
}

impl SharedState {
    /// The shared record at startup: the initial kinematic state and the
    /// parameters the startup config determines.
    pub fn new(config: &Config, maze_spec: MazeSpec) -> (r: SharedState)
        requires
            config.framerate >= 0,
        ensures
            r.simulation == SimulationState::spec_initial(),
            r.simulation.wf(),
            r.config == (SimulationConfig {
                framerate: config.framerate,
                steering_scaler: STEERING_SCALER,
                acceleration_scaler: ACCELERATION_SCALER,
                human: config.stick,
            }),
            r.config.wf(),
            r.maze_spec == maze_spec,
    {
        SharedState {
            maze_spec,
            simulation: SimulationState::initial(),
            config: SimulationConfig::new(config),
        }
    }
}

} // verus!

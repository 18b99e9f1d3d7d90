use matahatan::{
    add_maze, build_walls, maze_from_seed_and_kind, next_phase, simulation_step, simulation_tick,
    Config, Input, LocalState, LoopPhase, MazeKind, MazeSpec, SharedState, SimulationConfig,
    SimulationState, Wall, HALF_CELL, MAX_VELOCITY, SCALE, WALL_HALF_LONG, WALL_HALF_THIN,
};

fn test_config(stick: bool) -> Config {
    Config {
        gui: false,
        stdio: false,
        stick,
        framerate: 25 * SCALE,
        seed: Some(String::from("test")),
        kind: MazeKind::Backtracking,
    }
}

fn fresh_state(config: &Config) -> (SimulationConfig, SimulationState) {
    let spec = MazeSpec::from_string(config.seed.as_ref().unwrap(), config.kind);
    let shared = SharedState::new(config, spec);
    (shared.config, shared.simulation)
}

fn no_walls() -> Vec<Wall> {
    Vec::new()
}

/// One wall rectangle: the west edge of cell `(ix, iy)` when `vertical`,
/// else its north edge.
fn one_wall(ix: i64, iy: i64, vertical: bool) -> Vec<Wall> {
    let w = if vertical {
        Wall {
            cx: ix * SCALE,
            cy: iy * SCALE + HALF_CELL,
            hx: WALL_HALF_THIN,
            hy: WALL_HALF_LONG,
        }
    } else {
        Wall {
            cx: ix * SCALE + HALF_CELL,
            cy: iy * SCALE,
            hx: WALL_HALF_LONG,
            hy: WALL_HALF_THIN,
        }
    };
    vec![w]
}

#[test]
fn initial_state_is_fixed_origin() {
    let config = test_config(false);
    let (_, state) = fresh_state(&config);
    assert_eq!(state.frame, 0);
    assert_eq!(state.position.x, SCALE / 2);
    assert_eq!(state.position.y, SCALE / 2);
    assert_eq!(state.velocity, 0);
    assert_eq!(state.angle, 0);
    assert_eq!(state.steering, 0);
    assert_eq!(state.acceleration, 0);
    assert!(!state.collision);
}

/// Scenario: from rest, full acceleration with gain 0.01 gives speed 0.01
/// after one tick.
#[test]
fn scenario_one_tick_accelerates_by_gain() {
    let config = test_config(false);
    let (sim_config, mut state) = fresh_state(&config);
    let walls = no_walls();
    state.acceleration = SCALE;  // 1.0
    simulation_step(&walls, &sim_config, &mut state);
    assert_eq!(state.velocity, SCALE / 100);  // 0.01
    assert_eq!(state.frame, 1);
    assert!(!state.collision);
}

#[test]
fn step_is_deterministic() {
    let config = test_config(false);
    let (sim_config, state0) = fresh_state(&config);
    let spec = MazeSpec::from_string(&String::from("test"), MazeKind::Backtracking);
    let maze = maze_from_seed_and_kind(&spec.seed, spec.kind).unwrap();
    let walls = build_walls(&maze);
    let mut a = state0;
    let mut b = state0;
    a.steering = SCALE / 2;
    a.acceleration = SCALE;
    b.steering = SCALE / 2;
    b.acceleration = SCALE;
    for _ in 0..50 {
        simulation_step(&walls, &sim_config, &mut a);
        simulation_step(&walls, &sim_config, &mut b);
        assert!(a == b);
    }
}

#[test]
fn speed_stays_within_bounds() {
    let config = test_config(false);
    let (sim_config, mut state) = fresh_state(&config);
    let walls = no_walls();
    state.acceleration = SCALE;
    for _ in 0..200 {
        simulation_step(&walls, &sim_config, &mut state);
        assert!(0 <= state.velocity && state.velocity <= MAX_VELOCITY);
    }
    assert_eq!(state.velocity, MAX_VELOCITY);
    state.acceleration = -SCALE;
    for _ in 0..200 {
        simulation_step(&walls, &sim_config, &mut state);
        assert!(0 <= state.velocity && state.velocity <= MAX_VELOCITY);
    }
    assert_eq!(state.velocity, 0);
}

#[test]
fn braking_is_five_times_stronger() {
    let config = test_config(false);
    let (sim_config, mut state) = fresh_state(&config);
    let walls = no_walls();
    state.velocity = MAX_VELOCITY;
    state.acceleration = -SCALE;
    simulation_step(&walls, &sim_config, &mut state);
    // One braking tick removes 5 * 0.01 where an accelerating one adds 0.01.
    assert_eq!(state.velocity, MAX_VELOCITY - 5 * (SCALE / 100));
}

/// Scenario: driving straight into a wall face zeroes the velocity's
/// wall-normal component. Head-on the whole velocity is normal, so the
/// agent stops and the collision flag is set.
#[test]
fn scenario_head_on_wall_stops() {
    let config = test_config(false);
    let (sim_config, mut state) = fresh_state(&config);
    // A vertical wall just east of the agent: its slab starts at x = 0.9.
    let walls = one_wall(1, 0, true);
    state.position.x = 760_000;  // closest point 0.9 lies within the 0.15 ball
    state.position.y = HALF_CELL;
    state.velocity = MAX_VELOCITY;
    state.angle = 0;  // heading east, straight into the wall
    simulation_step(&walls, &sim_config, &mut state);
    assert!(state.collision);
    // The normal (x) component is gone; head-on there is no tangential part.
    assert_eq!(state.velocity_v.x, 0);
    assert_eq!(state.velocity_v.y, 0);
    // The scalar speed was damped by a fifth plus a constant.
    let expected = MAX_VELOCITY - (MAX_VELOCITY / 5 + 1000);
    assert_eq!(state.velocity, expected);
    // The agent did not move through the wall.
    assert_eq!(state.position.x, 760_000);
}

/// Scenario: hitting the wall at a shallow angle keeps the slow tangential
/// remainder; the normal component is exactly zero.
#[test]
fn scenario_glancing_wall_keeps_tangential_part() {
    let config = test_config(false);
    let (sim_config, mut state) = fresh_state(&config);
    let walls = one_wall(1, 0, true);
    state.position.x = 760_000;
    state.position.y = HALF_CELL;
    state.velocity = 60_000;  // slow: the tangential part stays under a quarter of top speed
    state.angle = 785_398;  // an eighth of a turn: diagonally into the wall
    // A free-field run of the same state tells what the velocity would be.
    let mut free = state;
    let empty = no_walls();
    simulation_step(&empty, &sim_config, &mut free);
    simulation_step(&walls, &sim_config, &mut state);
    assert!(state.collision);
    assert!(!free.collision);
    // The wall's normal is the x axis here: that component is exactly zero,
    // the tangential (y) component survives unchanged.
    assert_eq!(state.velocity_v.x, 0);
    assert_eq!(state.velocity_v.y, free.velocity_v.y);
    assert!(state.velocity_v.y != 0);
}

/// Scenario: hitting the wall fast at an angle leaves too much tangential
/// speed, so the velocity is zeroed entirely (no high-speed skating).
#[test]
fn scenario_fast_glancing_wall_hard_stops() {
    let config = test_config(false);
    let (sim_config, mut state) = fresh_state(&config);
    let walls = one_wall(1, 0, true);
    state.position.x = 760_000;
    state.position.y = HALF_CELL;
    state.velocity = MAX_VELOCITY;
    state.angle = 785_398;
    simulation_step(&walls, &sim_config, &mut state);
    assert!(state.collision);
    assert_eq!(state.velocity_v.x, 0);
    assert_eq!(state.velocity_v.y, 0);
}

#[test]
fn human_shaping_dead_zone_and_curve() {
    let config = test_config(true);
    let (sim_config, mut state) = fresh_state(&config);
    let walls = no_walls();
    // Below the 0.2 dead zone the steering becomes zero.
    state.steering = 150_000;
    simulation_step(&walls, &sim_config, &mut state);
    assert_eq!(state.steering, 0);
    // Full deflection survives the 7th power exactly.
    state.steering = SCALE;
    simulation_step(&walls, &sim_config, &mut state);
    assert_eq!(state.steering, SCALE);
    // A mid deflection is compressed: 0.5^7 = 0.0078125.
    state.steering = SCALE / 2;
    simulation_step(&walls, &sim_config, &mut state);
    assert_eq!(state.steering, 7812);
    // Acceleration uses the 3rd power: 0.5^3 = 0.125.
    state.acceleration = SCALE / 2;
    simulation_step(&walls, &sim_config, &mut state);
    assert_eq!(state.acceleration, SCALE / 8);
}

#[test]
fn turning_slows_with_speed() {
    let config = test_config(false);
    let (sim_config, mut state) = fresh_state(&config);
    let walls = no_walls();
    // At rest, full steering turns by the full 0.4 gain.
    state.steering = SCALE;
    simulation_step(&walls, &sim_config, &mut state);
    assert_eq!(state.angle, 400_000);
    // At top speed the divisor is 20 * 0.2 = 4.
    let mut fast = state;
    fast.velocity = MAX_VELOCITY;
    fast.acceleration = 0;
    let before = fast.angle;
    simulation_step(&walls, &sim_config, &mut fast);
    assert_eq!(fast.angle, before + 100_000);
}

#[test]
fn tick_applies_and_clamps_inputs() {
    let config = test_config(false);
    let (sim_config, mut state) = fresh_state(&config);
    let walls = no_walls();
    let input = Input { steering: 3 * SCALE, acceleration: -2 * SCALE };
    simulation_tick(&walls, &sim_config, &mut state, Some(input));
    assert_eq!(state.steering, SCALE);
    assert_eq!(state.acceleration, -SCALE);
    // Without fresh input the prior values persist.
    simulation_tick(&walls, &sim_config, &mut state, None);
    assert_eq!(state.steering, SCALE);
    assert_eq!(state.acceleration, -SCALE);
}

/// The explicit boundary walls keep the agent inside the grid whatever
/// direction it is driven in, for every generation strategy.
#[test]
fn agent_never_leaves_the_grid() {
    for kind in [
        MazeKind::Ellers,
        MazeKind::Backtracking,
        MazeKind::GrowingTree,
        MazeKind::Prims,
    ] {
        check_contained(kind);
    }
}

fn check_contained(kind: MazeKind) {
    let config = test_config(false);
    let spec = MazeSpec::from_string(&String::from("test"), kind);
    let maze = maze_from_seed_and_kind(&spec.seed, spec.kind).unwrap();
    let mut local = LocalState::new(&config, maze);
    add_maze(&mut local);
    let (sim_config, state0) = fresh_state(&config);
    // Eight headings, an eighth of a turn apart.
    for turn in 0..8i64 {
        let mut state = state0;
        state.angle = turn * 785_398 % 6_283_186;
        state.acceleration = SCALE;
        for _ in 0..1_500 {
            simulation_step(&local.walls, &sim_config, &mut state);
            assert!(-200_000 <= state.position.x && state.position.x <= 25_200_000);
            assert!(-200_000 <= state.position.y && state.position.y <= 25_200_000);
        }
    }
}

#[test]
fn loop_phase_transitions() {
    assert_eq!(next_phase(LoopPhase::Running, false), LoopPhase::Running);
    assert_eq!(next_phase(LoopPhase::Running, true), LoopPhase::Stopping);
    assert_eq!(next_phase(LoopPhase::Stopping, false), LoopPhase::Stopped);
    assert_eq!(next_phase(LoopPhase::Stopped, true), LoopPhase::Stopped);
}

#[test]
fn heading_vector_follows_the_angle() {
    let config = test_config(false);
    let (sim_config, state0) = fresh_state(&config);
    let walls = no_walls();
    // Heading east: the unit vector is within one micro-unit of (1, 0).
    let mut state = state0;
    state.velocity = MAX_VELOCITY;
    simulation_step(&walls, &sim_config, &mut state);
    assert_eq!(state.angle_v.x, 999_999);
    assert_eq!(state.angle_v.y, 0);
    assert_eq!(state.velocity_v.x, 199_999);
    assert_eq!(state.velocity_v.y, 0);
    // A quarter turn: heading south (the y axis grows southward).
    let mut state = state0;
    state.angle = 1_570_796;
    state.velocity = MAX_VELOCITY;
    simulation_step(&walls, &sim_config, &mut state);
    assert_eq!(state.angle_v.x, 1);
    assert_eq!(state.angle_v.y, 999_999);
    assert_eq!(state.velocity_v.x, 0);
    assert_eq!(state.velocity_v.y, 199_999);
    // A half turn: heading west.
    let mut state = state0;
    state.angle = 3_141_593;
    state.velocity = MAX_VELOCITY;
    simulation_step(&walls, &sim_config, &mut state);
    assert_eq!(state.angle_v.x, -999_999);
    assert_eq!(state.angle_v.y, 0);
}

//! The physics simulation step: a pure transition function from
//! (kinematic state, config, collision world, control inputs) to the next
//! kinematic state.
//!
//! Every quantity is a fixed-point micro-unit value, so the step is exactly
//! the function `spec_step` states: identical inputs give identical outputs.

use vstd::prelude::*;

use crate::fx::{
    clamp_spec, div_spec, fx_clamp, fx_div, fx_mul, lemma_div_spec_bound, lemma_mul_spec_bound,
    lemma_mul_spec_comm, mul_spec, tdiv, SCALE,
};
use crate::trig::{cos_spec, cos_fx, sin_spec, sin_fx, TWO_PI_FX};
use crate::walls::{Wall, WALL_HALF_LONG};

verus! {

/// Top speed of the agent, in micro-cells per tick.
pub const MAX_VELOCITY: i64 = 200000;

/// Steering gain: a full deflection turns this many micro-radians per tick
/// (before the speed-dependent divisor).
pub const STEERING_SCALER: i64 = 400000;

/// Acceleration gain: a full deflection adds this many micro-cells per tick
/// of speed per tick.
pub const ACCELERATION_SCALER: i64 = 10000;

/// Braking is this many times stronger than accelerating.
pub const BRAKE_FACTOR: i64 = 5;

/// Stick deflections below this magnitude count as zero when human-input
/// shaping is on.
pub const DEADZONE: i64 = 200000;

/// Turning authority shrinks with speed: the divisor is `speed` times this,
/// floored at one.
pub const TURN_DIVISOR_FACTOR: i64 = 20;

/// Radius of the agent's bounding ball, in micro-cells.
pub const BALL_RADIUS: i64 = 150000;

/// Slack added to the broad-phase overlap query, in micro-cells.
pub const WORLD_MARGIN: i64 = 50000;

/// If the tangential speed left after a collision still exceeds this
/// (a quarter of the top speed), the agent stops dead.
pub const STOP_THRESHOLD: i64 = 50000;

/// On collision the speed is damped by this fraction of itself ...
pub const DAMP_FRACTION: i64 = 200000;

/// ... plus this constant, floored at zero.
pub const DAMP_CONSTANT: i64 = 1000;

/// Positions are clamped into a huge box so that arithmetic can never
/// overflow, whatever the maze looks like.
pub const POS_LIMIT: i64 = 1000000000000;

/// A two-dimensional vector in micro-units.
#[derive(Copy, Clone, PartialEq, Eq, Structural, Debug)]
pub struct V2 {
    /// x component.
    pub x: i64,
    /// y component.
    pub y: i64,
}

/// Immutable per-run simulation parameters.
#[derive(Copy, Clone, PartialEq, Eq, Structural, Debug)]
pub struct SimulationConfig {
    /// Ticks per second, in micro-Hz; zero means run flat-out.
    pub framerate: i64,
    /// Steering gain, micro-radians per tick at full deflection.
    pub steering_scaler: i64,
    /// Acceleration gain, micro-cells per tick squared at full deflection.
    pub acceleration_scaler: i64,
    /// Whether human-input shaping (dead zone and power curves) is applied.
    pub human: bool,
}

impl SimulationConfig {
    /// Gains are nonnegative and at most one unit.
    pub open spec fn wf(&self) -> bool {
        &&& 0 <= self.framerate
        &&& 0 <= self.steering_scaler <= SCALE
        &&& 0 <= self.acceleration_scaler <= SCALE
    }
}

/// The kinematic state of the agent at one tick.
#[derive(Copy, Clone, PartialEq, Eq, Structural, Debug)]
pub struct SimulationState {
    /// Tick counter.
    pub frame: i64,
    /// Position in micro-cells.
    pub position: V2,
    /// Whether a collision was resolved this tick.
    pub collision: bool,
    /// Scalar speed in micro-cells per tick.
    pub velocity: i64,
    /// Velocity vector in micro-cells per tick.
    pub velocity_v: V2,
    /// Heading unit vector in micro-units.
    pub angle_v: V2,
    /// Heading in micro-radians, reduced into `[0, TWO_PI_FX)`.
    pub angle: i64,
    /// Steering input in micro-units, in `[-SCALE, SCALE]`.
    pub steering: i64,
    /// Acceleration input in micro-units, in `[-SCALE, SCALE]`.
    pub acceleration: i64,
}

impl SimulationState {
    /// Well-formedness: every field within its physical range.
    pub open spec fn wf(&self) -> bool {
        &&& 0 <= self.frame
        &&& 0 <= self.velocity <= MAX_VELOCITY
        &&& 0 <= self.angle < TWO_PI_FX
        &&& vstd::math::abs(self.steering as int) <= SCALE
        &&& vstd::math::abs(self.acceleration as int) <= SCALE
        &&& vstd::math::abs(self.angle_v.x as int) <= SCALE
        &&& vstd::math::abs(self.angle_v.y as int) <= SCALE
        &&& vstd::math::abs(self.velocity_v.x as int) <= SCALE
        &&& vstd::math::abs(self.velocity_v.y as int) <= SCALE
        &&& vstd::math::abs(self.position.x as int) <= POS_LIMIT
        &&& vstd::math::abs(self.position.y as int) <= POS_LIMIT
    }

    /// The state every run starts from: at rest in the middle of the
    /// north-west cell, heading east.
    pub open spec fn spec_initial() -> SimulationState {
        SimulationState {
            frame: 0,
            position: V2 { x: (SCALE / 2) as i64, y: (SCALE / 2) as i64 },
            collision: false,
            velocity: 0,
            velocity_v: V2 { x: 0, y: 0 },
            angle_v: V2 { x: 0, y: 0 },
            angle: 0,
            steering: 0,
            acceleration: 0,
        }
    }

    /// Build the initial state.
    pub fn initial() -> (s: SimulationState)
        ensures
            s == Self::spec_initial(),
            s.wf(),
    {
        SimulationState {
            frame: 0,
            position: V2 { x: SCALE / 2, y: SCALE / 2 },
            collision: false,
            velocity: 0,
            velocity_v: V2 { x: 0, y: 0 },
            angle_v: V2 { x: 0, y: 0 },
            angle: 0,
            steering: 0,
            acceleration: 0,
        }
    }
}

/// The 7th fixed-point power, sign preserving.
pub open spec fn pow7_spec(x: int) -> int {
    let x2 = mul_spec(x, x);
    let x3 = mul_spec(x2, x);
    mul_spec(mul_spec(x3, x3), x)
}

/// The 3rd fixed-point power, sign preserving.
pub open spec fn pow3_spec(x: int) -> int {
    mul_spec(mul_spec(x, x), x)
}

/// Steering after human-input shaping: dead-zoned below `DEADZONE`, then
/// raised to the 7th power.
pub open spec fn shape_steering_spec(s: int) -> int {
    let dz = if vstd::math::abs(s) < DEADZONE {
        0int
    } else {
        s
    };
    pow7_spec(dz)
}

/// Acceleration after human-input shaping: raised to the 3rd power.
pub open spec fn shape_acceleration_spec(a: int) -> int {
    pow3_spec(a)
}

/// Speed after applying the acceleration input: negative inputs brake
/// `BRAKE_FACTOR` times harder, and the result is clamped to
/// `[0, MAX_VELOCITY]`.
pub open spec fn next_velocity_spec(v: int, a: int, gain: int) -> int {
    let dv = if a < 0 {
        mul_spec(a, gain * BRAKE_FACTOR)
    } else {
        mul_spec(a, gain)
    };
    let raw = v + dv;
    if raw < 0 {
        0int
    } else if raw > MAX_VELOCITY {
        MAX_VELOCITY as int
    } else {
        raw
    }
}

/// The divisor that shrinks turning authority as speed rises.
pub open spec fn turn_divisor_spec(v: int) -> int {
    let scaled = vstd::math::abs(v) as int * TURN_DIVISOR_FACTOR;
    if scaled < SCALE {
        SCALE as int
    } else {
        scaled
    }
}

/// The heading after one tick of steering, reduced into `[0, TWO_PI_FX)`.
pub open spec fn next_angle_spec(angle: int, steering: int, gain: int, v: int) -> int {
    let delta = div_spec(mul_spec(steering, gain), turn_divisor_spec(v));
    let raw = angle + delta;
    if raw < 0 {
        raw + TWO_PI_FX
    } else if raw >= TWO_PI_FX {
        raw - TWO_PI_FX
    } else {
        raw
    }
}

/// Shape the steering input.
pub fn shape_steering(s: i64) -> (r: i64)
    requires
        vstd::math::abs(s as int) <= SCALE,
    ensures
        r == shape_steering_spec(s as int),
        vstd::math::abs(r as int) <= SCALE,
{
    let dz: i64 = if s < DEADZONE && s > -DEADZONE {
        0
    } else {
        s
    };
    proof {
        lemma_mul_spec_bound(dz as int, dz as int, SCALE as int);
        lemma_mul_spec_bound(mul_spec(dz as int, dz as int), dz as int, SCALE as int);
        lemma_mul_spec_comm(mul_spec(dz as int, dz as int), dz as int);
        let x3 = mul_spec(mul_spec(dz as int, dz as int), dz as int);
        lemma_mul_spec_bound(x3, x3, SCALE as int);
        lemma_mul_spec_bound(mul_spec(x3, x3), dz as int, SCALE as int);
        lemma_mul_spec_comm(mul_spec(x3, x3), dz as int);
    }
    let x2 = fx_mul(dz, dz);
    let x3 = fx_mul(x2, dz);
    let x6 = fx_mul(x3, x3);
    fx_mul(x6, dz)
}

/// Shape the acceleration input.
pub fn shape_acceleration(a: i64) -> (r: i64)
    requires
        vstd::math::abs(a as int) <= SCALE,
    ensures
        r == shape_acceleration_spec(a as int),
        vstd::math::abs(r as int) <= SCALE,
{
    proof {
        lemma_mul_spec_bound(a as int, a as int, SCALE as int);
        lemma_mul_spec_bound(mul_spec(a as int, a as int), a as int, SCALE as int);
        lemma_mul_spec_comm(mul_spec(a as int, a as int), a as int);
    }
    let x2 = fx_mul(a, a);
    fx_mul(x2, a)
}

/// Apply the acceleration input to the scalar speed.
pub fn next_velocity(v: i64, a: i64, gain: i64) -> (r: i64)
    requires
        0 <= v <= MAX_VELOCITY,
        vstd::math::abs(a as int) <= SCALE,
        0 <= gain <= SCALE,
    ensures
        r == next_velocity_spec(v as int, a as int, gain as int),
        0 <= r <= MAX_VELOCITY,
{
    let dv: i64 = if a < 0 {
        proof {
            lemma_mul_spec_bound(a as int, gain as int * BRAKE_FACTOR, SCALE as int * BRAKE_FACTOR);
        }
        fx_mul(a, gain * BRAKE_FACTOR)
    } else {
        proof {
            lemma_mul_spec_bound(a as int, gain as int, SCALE as int);
        }
        fx_mul(a, gain)
    };
    let raw = v + dv;
    if raw < 0 {
        0
    } else if raw > MAX_VELOCITY {
        MAX_VELOCITY
    } else {
        raw
    }
}

/// Advance the heading by one tick of steering.
pub fn next_angle(angle: i64, steering: i64, gain: i64, v: i64) -> (r: i64)
    requires
        0 <= angle < TWO_PI_FX,
        vstd::math::abs(steering as int) <= SCALE,
        0 <= gain <= SCALE,
        0 <= v <= MAX_VELOCITY,
    ensures
        r == next_angle_spec(angle as int, steering as int, gain as int, v as int),
        0 <= r < TWO_PI_FX,
{
    proof {
        lemma_mul_spec_bound(steering as int, gain as int, SCALE as int);
        lemma_div_spec_bound(
            mul_spec(steering as int, gain as int),
            turn_divisor_spec(v as int),
            SCALE as int,
        );
    }
    let scaled = v * TURN_DIVISOR_FACTOR;
    let divisor: i64 = if scaled < SCALE {
        SCALE
    } else {
        scaled
    };
    let delta = fx_div(fx_mul(steering, gain), divisor);
    let raw = angle + delta;
    if raw < 0 {
        raw + TWO_PI_FX
    } else if raw >= TWO_PI_FX {
        raw - TWO_PI_FX
    } else {
        raw
    }
}

/// Square of the agent's bounding-ball radius.
pub const BALL_RADIUS2: i64 = BALL_RADIUS * BALL_RADIUS;

/// Square of the hard-stop speed threshold.
pub const STOP_THRESHOLD2: i64 = STOP_THRESHOLD * STOP_THRESHOLD;

/// A wall of the collision world lies within the grid and has positive,
/// bounded half-extents.
pub open spec fn wall_wf(w: Wall) -> bool {
    &&& 0 <= w.cx <= 26 * SCALE
    &&& 0 <= w.cy <= 26 * SCALE
    &&& 0 < w.hx <= WALL_HALF_LONG
    &&& 0 < w.hy <= WALL_HALF_LONG
}

/// Every wall of a collision world is well formed.
pub open spec fn walls_wf(ws: Seq<Wall>) -> bool {
    forall|i: int| 0 <= i < ws.len() ==> wall_wf(#[trigger] ws[i])
}

/// `p` clamped into `[c - h, c + h]`: the closest coordinate of the wall
/// slab to `p`.
pub open spec fn closest_spec(p: int, c: int, h: int) -> int {
    if p < c - h {
        c - h
    } else if p > c + h {
        c + h
    } else {
        p
    }
}

/// Whether the agent's bounding box at `(px, py)`, enlarged by the world
/// margin, overlaps wall `w`: the broad-phase query.
pub open spec fn overlap_spec(w: Wall, px: int, py: int) -> bool {
    &&& vstd::math::abs(px - w.cx) <= w.hx + BALL_RADIUS + WORLD_MARGIN
    &&& vstd::math::abs(py - w.cy) <= w.hy + BALL_RADIUS + WORLD_MARGIN
}

/// Whether wall `w` is resolved against: the closest point of the wall lies
/// within the agent's ball, and within 90 degrees of the velocity direction
/// (the wall is ahead).
pub open spec fn triggered_spec(w: Wall, px: int, py: int, vx: int, vy: int) -> bool {
    let dx = closest_spec(px, w.cx as int, w.hx as int) - px;
    let dy = closest_spec(py, w.cy as int, w.hy as int) - py;
    &&& dx * dx + dy * dy <= (BALL_RADIUS as int) * (BALL_RADIUS as int)
    &&& dx * vx + dy * vy > 0
}

/// The velocity after resolving one wall: unchanged if the wall is not
/// triggered; otherwise the velocity is projected onto the wall tangent
/// (each component clamped into one unit as an arithmetic guard), and
/// zeroed entirely if the remaining tangential speed still exceeds the
/// hard-stop threshold.
pub open spec fn resolve_wall_spec(w: Wall, px: int, py: int, vx: int, vy: int) -> (int, int) {
    if triggered_spec(w, px, py, vx, vy) {
        let dx = closest_spec(px, w.cx as int, w.hx as int) - px;
        let dy = closest_spec(py, w.cy as int, w.hy as int) - py;
        let nn = dx * dx + dy * dy;
        let dvn = vx * dy - vy * dx;
        let tx = clamp_spec(tdiv(dvn * dy, nn), SCALE as int);
        let ty = clamp_spec(tdiv(dvn * (-dx), nn), SCALE as int);
        if tx * tx + ty * ty > STOP_THRESHOLD2 {
            (0int, 0int)
        } else {
            (tx, ty)
        }
    } else {
        (vx, vy)
    }
}

/// The velocity and collision flag after resolving the first `i` walls in
/// order, starting from velocity `(vx0, vy0)` at position `(px, py)`.
pub open spec fn resolve_upto_spec(
    ws: Seq<Wall>,
    px: int,
    py: int,
    vx0: int,
    vy0: int,
    i: int,
) -> (int, int, bool)
    decreases i,
{
    if i <= 0 {
        (vx0, vy0, false)
    } else {
        let prev = resolve_upto_spec(ws, px, py, vx0, vy0, i - 1);
        let w = ws[i - 1];
        let next = resolve_wall_spec(w, px, py, prev.0, prev.1);
        (next.0, next.1, prev.2 || triggered_spec(w, px, py, prev.0, prev.1))
    }
}

/// A wall outside the broad-phase box cannot be triggered.
proof fn lemma_no_overlap_no_trigger(w: Wall, px: int, py: int, vx: int, vy: int)
    requires
        wall_wf(w),
        !overlap_spec(w, px, py),
    ensures
        !triggered_spec(w, px, py, vx, vy),
{
    let dx = closest_spec(px, w.cx as int, w.hx as int) - px;
    let dy = closest_spec(py, w.cy as int, w.hy as int) - py;
    if vstd::math::abs(px - w.cx) > w.hx + BALL_RADIUS + WORLD_MARGIN {
        assert(vstd::math::abs(dx) > BALL_RADIUS);
        assert(dx * dx > (BALL_RADIUS as int) * (BALL_RADIUS as int)) by (nonlinear_arith)
            requires
                vstd::math::abs(dx) > BALL_RADIUS > 0,
        ;
        assert(dy * dy >= 0) by (nonlinear_arith);
    } else {
        assert(vstd::math::abs(dy) > BALL_RADIUS);
        assert(dy * dy > (BALL_RADIUS as int) * (BALL_RADIUS as int)) by (nonlinear_arith)
            requires
                vstd::math::abs(dy) > BALL_RADIUS > 0,
        ;
        assert(dx * dx >= 0) by (nonlinear_arith);
    }
}

/// Clamp `p` into the slab `[c - h, c + h]`.
fn closest_coord(p: i64, c: i64, h: i64) -> (r: i64)
    requires
        vstd::math::abs(p as int) <= POS_LIMIT,
        0 <= c <= 26 * SCALE,
        0 < h <= WALL_HALF_LONG,
    ensures
        r == closest_spec(p as int, c as int, h as int),
{
    if p < c - h {
        c - h
    } else if p > c + h {
        c + h
    } else {
        p
    }
}

/// Resolve the agent's velocity against every wall of the collision world,
/// in build order. Returns the resolved velocity and whether any wall was
/// resolved against.
pub fn resolve_collisions(walls: &Vec<Wall>, pos: V2, vel: V2) -> (r: (V2, bool))
    requires
        walls_wf(walls@),
        vstd::math::abs(pos.x as int) <= POS_LIMIT,
        vstd::math::abs(pos.y as int) <= POS_LIMIT,
        vstd::math::abs(vel.x as int) <= SCALE,
        vstd::math::abs(vel.y as int) <= SCALE,
    ensures
        ({
            let t = resolve_upto_spec(
                walls@,
                pos.x as int,
                pos.y as int,
                vel.x as int,
                vel.y as int,
                walls@.len() as int,
            );
            r.0.x == t.0 && r.0.y == t.1 && r.1 == t.2
        }),
        vstd::math::abs(r.0.x as int) <= SCALE,
        vstd::math::abs(r.0.y as int) <= SCALE,
{
    let px = pos.x;
    let py = pos.y;
    let mut vx = vel.x;
    let mut vy = vel.y;
    let mut found = false;
    let n = walls.len();
    let mut i: usize = 0;
    while i < n
        invariant
            walls_wf(walls@),
            n == walls@.len(),
            i <= n,
            vstd::math::abs(px as int) <= POS_LIMIT,
            vstd::math::abs(py as int) <= POS_LIMIT,
            vstd::math::abs(vx as int) <= SCALE,
            vstd::math::abs(vy as int) <= SCALE,
            ({
                let t = resolve_upto_spec(
                    walls@,
                    px as int,
                    py as int,
                    vel.x as int,
                    vel.y as int,
                    i as int,
                );
                vx == t.0 && vy == t.1 && found == t.2
            }),
        decreases n - i,
    {
        let w = walls[i];
        let ghost prev_vx = vx as int;
        let ghost prev_vy = vy as int;
        let ghost prev_found = found;
        let within_x = px - w.cx <= w.hx + BALL_RADIUS + WORLD_MARGIN && w.cx - px <= w.hx
            + BALL_RADIUS + WORLD_MARGIN;
        let within_y = py - w.cy <= w.hy + BALL_RADIUS + WORLD_MARGIN && w.cy - py <= w.hy
            + BALL_RADIUS + WORLD_MARGIN;
        if within_x && within_y {
            let cx = closest_coord(px, w.cx, w.hx);
            let cy = closest_coord(py, w.cy, w.hy);
            let dx = cx - px;
            let dy = cy - py;
            proof {
                assert(vstd::math::abs(dx as int) <= w.hx + w.hx + BALL_RADIUS + WORLD_MARGIN);
                assert(vstd::math::abs(dy as int) <= w.hy + w.hy + BALL_RADIUS + WORLD_MARGIN);
                assert(0 <= (dx as int) * (dx as int) <= 4000000000000 && 0 <= (dy as int) * (
                dy as int) <= 4000000000000) by (nonlinear_arith)
                    requires
                        vstd::math::abs(dx as int) <= 2000000,
                        vstd::math::abs(dy as int) <= 2000000,
                ;
            }
            let d2 = dx * dx + dy * dy;
            if d2 <= BALL_RADIUS2 {
                proof {
                    assert(vstd::math::abs(dx as int) <= BALL_RADIUS && vstd::math::abs(
                        dy as int,
                    ) <= BALL_RADIUS) by (nonlinear_arith)
                        requires
                            (dx as int) * (dx as int) + (dy as int) * (dy as int) <= (
                            BALL_RADIUS as int) * (BALL_RADIUS as int),
                            BALL_RADIUS > 0,
                    ;
                    assert(vstd::math::abs((dx as int) * (vx as int)) <= 150000000000
                        && vstd::math::abs((dy as int) * (vy as int)) <= 150000000000)
                        by (nonlinear_arith)
                        requires
                            vstd::math::abs(dx as int) <= BALL_RADIUS,
                            vstd::math::abs(dy as int) <= BALL_RADIUS,
                            vstd::math::abs(vx as int) <= SCALE,
                            vstd::math::abs(vy as int) <= SCALE,
                            BALL_RADIUS == 150000,
                            SCALE == 1000000,
                    ;
                }
                let dot = dx * vx + dy * vy;
                if dot > 0 {
                    proof {
                        assert(d2 >= 1) by (nonlinear_arith)
                            requires
                                d2 == (dx as int) * (dx as int) + (dy as int) * (dy as int),
                                (dx as int) * (vx as int) + (dy as int) * (vy as int) > 0,
                        ;
                        assert(vstd::math::abs((vx as int) * (dy as int)) <= 150000000000
                            && vstd::math::abs((vy as int) * (dx as int)) <= 150000000000
                            && vstd::math::abs((vx as int) * (dy as int) - (vy as int) * (
                        dx as int)) <= 300000000000) by (nonlinear_arith)
                            requires
                                vstd::math::abs(dx as int) <= BALL_RADIUS,
                                vstd::math::abs(dy as int) <= BALL_RADIUS,
                                vstd::math::abs(vx as int) <= SCALE,
                                vstd::math::abs(vy as int) <= SCALE,
                                BALL_RADIUS == 150000,
                                SCALE == 1000000,
                        ;
                    }
                    let dvn = vx * dy - vy * dx;
                    proof {
                        assert(vstd::math::abs((dvn as int) * (dy as int)) <= 45000000000000000
                            && vstd::math::abs((dvn as int) * (-dx as int)) <= 45000000000000000)
                            by (nonlinear_arith)
                            requires
                                vstd::math::abs(dvn as int) <= 300000000000,
                                vstd::math::abs(dx as int) <= BALL_RADIUS,
                                vstd::math::abs(dy as int) <= BALL_RADIUS,
                                BALL_RADIUS == 150000,
                        ;
                    }
                    let tx_raw = crate::fx::tdiv_exec((dvn as i128) * (dy as i128), d2 as i128);
                    let ty_raw = crate::fx::tdiv_exec((dvn as i128) * (-dx as i128), d2 as i128);
                    let tx = fx_clamp(tx_raw as i64, SCALE);
                    let ty = fx_clamp(ty_raw as i64, SCALE);
                    proof {
                        assert(0 <= (tx as int) * (tx as int) <= 1000000000000 && 0 <= (ty as int)
                            * (ty as int) <= 1000000000000) by (nonlinear_arith)
                            requires
                                vstd::math::abs(tx as int) <= SCALE,
                                vstd::math::abs(ty as int) <= SCALE,
                                SCALE == 1000000,
                        ;
                    }
                    let l2 = tx * tx + ty * ty;
                    if l2 > STOP_THRESHOLD2 {
                        vx = 0;
                        vy = 0;
                    } else {
                        vx = tx;
                        vy = ty;
                    }
                    found = true;
                }
            }
        } else {
            proof {
                lemma_no_overlap_no_trigger(
                    walls@[i as int],
                    px as int,
                    py as int,
                    prev_vx,
                    prev_vy,
                );
            }
        }
        proof {
            let t_next = resolve_upto_spec(
                walls@,
                px as int,
                py as int,
                vel.x as int,
                vel.y as int,
                i as int + 1,
            );
            assert(vx == t_next.0 && vy == t_next.1 && found == t_next.2);
        }
        i += 1;
    }
    (V2 { x: vx, y: vy }, found)
}

/// The scalar speed after collision damping: reduced by a fifth plus a
/// small constant, floored at zero.
pub open spec fn damp_velocity_spec(v: int) -> int {
    let d = v - (mul_spec(v, DAMP_FRACTION as int) + DAMP_CONSTANT);
    if d < 0 {
        0int
    } else {
        d
    }
}

/// One whole physics tick as a mathematical function: shape the inputs,
/// apply acceleration and steering, recompute the heading vector and the
/// velocity, resolve collisions, damp on collision, move.
pub open spec fn spec_step(s: SimulationState, c: SimulationConfig, walls: Seq<Wall>) -> SimulationState {
    let steering = if c.human {
        shape_steering_spec(s.steering as int)
    } else {
        s.steering as int
    };
    let acceleration = if c.human {
        shape_acceleration_spec(s.acceleration as int)
    } else {
        s.acceleration as int
    };
    let velocity = next_velocity_spec(s.velocity as int, acceleration, c.acceleration_scaler as int);
    let angle = next_angle_spec(s.angle as int, steering, c.steering_scaler as int, velocity);
    let ax = cos_spec(angle);
    let ay = sin_spec(angle);
    let vx = mul_spec(ax, velocity);
    let vy = mul_spec(ay, velocity);
    let res = resolve_upto_spec(
        walls,
        s.position.x as int,
        s.position.y as int,
        vx,
        vy,
        walls.len() as int,
    );
    let damped = if res.2 {
        damp_velocity_spec(velocity)
    } else {
        velocity
    };
    SimulationState {
        frame: (s.frame + 1) as i64,
        position: V2 {
            x: clamp_spec(s.position.x + res.0, POS_LIMIT as int) as i64,
            y: clamp_spec(s.position.y + res.1, POS_LIMIT as int) as i64,
        },
        collision: res.2,
        velocity: damped as i64,
        velocity_v: V2 { x: res.0 as i64, y: res.1 as i64 },
        angle_v: V2 { x: ax as i64, y: ay as i64 },
        angle: angle as i64,
        steering: steering as i64,
        acceleration: acceleration as i64,
    }
}

/// Run one physics tick.
///
/// The step is the pure function `spec_step` of the old state, the config
/// and the wall set — identical inputs always give the identical next
/// state — and it keeps the state well formed; in particular the speed
/// stays within `[0, MAX_VELOCITY]`.
pub fn simulation_step(walls: &Vec<Wall>, config: &SimulationConfig, state: &mut SimulationState)
    requires
        walls_wf(walls@),
        config.wf(),
        old(state).wf(),
        old(state).frame < i64::MAX,
    ensures
        *final(state) == spec_step(*old(state), *config, walls@),
        final(state).wf(),
        0 <= final(state).velocity <= MAX_VELOCITY,
{
    state.collision = false;
    state.frame = state.frame + 1;
    if config.human {
        state.steering = shape_steering(state.steering);
        state.acceleration = shape_acceleration(state.acceleration);
    }
    state.velocity = next_velocity(state.velocity, state.acceleration, config.acceleration_scaler);
    state.angle = next_angle(state.angle, state.steering, config.steering_scaler, state.velocity);
    let ax = cos_fx(state.angle);
    let ay = sin_fx(state.angle);
    state.angle_v = V2 { x: ax, y: ay };
    proof {
        lemma_mul_spec_bound(ax as int, state.velocity as int, SCALE as int);
        lemma_mul_spec_bound(ay as int, state.velocity as int, SCALE as int);
    }
    state.velocity_v = V2 { x: fx_mul(ax, state.velocity), y: fx_mul(ay, state.velocity) };
    let (resolved, found) = resolve_collisions(walls, state.position, state.velocity_v);
    state.velocity_v = resolved;
    if found {
        state.collision = true;
        proof {
            assert(0 <= (state.velocity as int) * (DAMP_FRACTION as int)) by (nonlinear_arith)
                requires
                    0 <= state.velocity,
                    DAMP_FRACTION > 0,
            ;
            lemma_mul_spec_bound(state.velocity as int, DAMP_FRACTION as int, SCALE as int);
            lemma_mul_spec_comm(state.velocity as int, DAMP_FRACTION as int);
            vstd::arithmetic::div_mod::lemma_div_pos_is_pos(
                (state.velocity as int) * (DAMP_FRACTION as int),
                SCALE as int,
            );
        }
        let loss = fx_mul(state.velocity, DAMP_FRACTION) + DAMP_CONSTANT;
        let damped = state.velocity - loss;
        state.velocity = if damped < 0 {
            0
        } else {
            damped
        };
    }
    state.position = V2 {
        x: fx_clamp(state.position.x + resolved.x, POS_LIMIT),
        y: fx_clamp(state.position.y + resolved.y, POS_LIMIT),
    };
}

/// Dividing a multiple of a positive `m` by `m` gives the multiplier back,
/// also under truncating division.
proof fn lemma_tdiv_mul_cancel(a: int, m: int)
    requires
        m >= 1,
    ensures
        tdiv(a * m, m) == a,
{
    assert(a * m == m * a) by (nonlinear_arith);
    vstd::arithmetic::div_mod::lemma_div_multiples_vanish(a, m);
    if a >= 0 {
        assert(a * m >= 0) by (nonlinear_arith)
            requires
                a >= 0,
                m >= 1,
        ;
    } else {
        assert(a * m < 0) by (nonlinear_arith)
            requires
                a < 0,
                m >= 1,
        ;
        assert(-(a * m) == (-a) * m) by (nonlinear_arith);
        assert((-a) * m == m * (-a)) by (nonlinear_arith);
        vstd::arithmetic::div_mod::lemma_div_multiples_vanish(-a, m);
    }
}

/// COLLISION TANGENT. Whenever resolution triggers for a wall whose closest
/// point differs from the agent centre along one axis only (the wall is hit
/// on a face, so that axis is the wall's normal), the resolved velocity has
/// no component along that normal: its dot product with the centre-to-wall
/// vector is exactly zero, both when the tangential remainder persists and
/// when the hard stop zeroes the velocity.
///
/// The face-hit hypothesis is the one restriction: on a corner contact the
/// normal is diagonal, and the truncated integer projection can keep a
/// remainder of up to one micro-unit per axis along it, so exact zero is
/// not true there.
pub proof fn lemma_collision_tangent(w: Wall, px: int, py: int, vx: int, vy: int)
    requires
        triggered_spec(w, px, py, vx, vy),
        vstd::math::abs(vx) <= SCALE,
        vstd::math::abs(vy) <= SCALE,
        closest_spec(px, w.cx as int, w.hx as int) == px || closest_spec(
            py,
            w.cy as int,
            w.hy as int,
        ) == py,
    ensures
        ({
            let dx = closest_spec(px, w.cx as int, w.hx as int) - px;
            let dy = closest_spec(py, w.cy as int, w.hy as int) - py;
            let r = resolve_wall_spec(w, px, py, vx, vy);
            r.0 * dx + r.1 * dy == 0
        }),
{
    let dx = closest_spec(px, w.cx as int, w.hx as int) - px;
    let dy = closest_spec(py, w.cy as int, w.hy as int) - py;
    let nn = dx * dx + dy * dy;
    let dvn = vx * dy - vy * dx;
    if dx == 0 {
        assert(dy != 0) by {
            if dy == 0 {
                assert(dx * vx + dy * vy == 0);
            }
        };
        assert(nn == dy * dy) by (nonlinear_arith)
            requires
                dx == 0,
                nn == dx * dx + dy * dy,
        ;
        assert(nn >= 1) by (nonlinear_arith)
            requires
                dy != 0,
                nn == dy * dy,
        ;
        assert(dvn * dy == vx * nn) by (nonlinear_arith)
            requires
                dx == 0,
                dvn == vx * dy - vy * dx,
                nn == dy * dy,
        ;
        lemma_tdiv_mul_cancel(vx, nn);
        assert(dvn * (-dx) == 0) by (nonlinear_arith)
            requires
                dx == 0,
        ;
        vstd::arithmetic::div_mod::lemma_div_of0(nn);
        let tx = clamp_spec(tdiv(dvn * dy, nn), SCALE as int);
        let ty = clamp_spec(tdiv(dvn * (-dx), nn), SCALE as int);
        assert(tx == vx && ty == 0);
        let r = resolve_wall_spec(w, px, py, vx, vy);
        assert(r.0 * dx + r.1 * dy == 0) by (nonlinear_arith)
            requires
                dx == 0,
                r.1 == 0,
        ;
    } else {
        assert(closest_spec(py, w.cy as int, w.hy as int) == py);
        assert(dy == 0);
        assert(nn == dx * dx) by (nonlinear_arith)
            requires
                dy == 0,
                nn == dx * dx + dy * dy,
        ;
        assert(nn >= 1) by (nonlinear_arith)
            requires
                dx != 0,
                nn == dx * dx,
        ;
        assert(dvn * (-dx) == vy * nn) by (nonlinear_arith)
            requires
                dy == 0,
                dvn == vx * dy - vy * dx,
                nn == dx * dx,
        ;
        lemma_tdiv_mul_cancel(vy, nn);
        assert(dvn * dy == 0) by (nonlinear_arith)
            requires
                dy == 0,
        ;
        vstd::arithmetic::div_mod::lemma_div_of0(nn);
        let tx = clamp_spec(tdiv(dvn * dy, nn), SCALE as int);
        let ty = clamp_spec(tdiv(dvn * (-dx), nn), SCALE as int);
        assert(tx == 0 && ty == vy);
        let r = resolve_wall_spec(w, px, py, vx, vy);
        assert(r.0 * dx + r.1 * dy == 0) by (nonlinear_arith)
            requires
                dy == 0,
                r.0 == 0,
        ;
    }
}

/// Once the collision flag is raised it stays raised through the rest of
/// the wall fold.
proof fn lemma_found_monotone(
    ws: Seq<Wall>,
    px: int,
    py: int,
    vx0: int,
    vy0: int,
    i: int,
    n: int,
)
    requires
        0 <= i <= n,
        resolve_upto_spec(ws, px, py, vx0, vy0, i).2,
    ensures
        resolve_upto_spec(ws, px, py, vx0, vy0, n).2,
    decreases n - i,
{
    if i < n {
        lemma_found_monotone(ws, px, py, vx0, vy0, i + 1, n);
    }
}

/// COLLISION FLAG. Whenever any wall of the fold is resolved against — its
/// closest point lies inside the agent ball and ahead of the velocity the
/// fold carries at that wall — the whole resolution reports a collision,
/// and the step then damps the scalar speed.
pub proof fn lemma_resolution_sets_the_flag(
    ws: Seq<Wall>,
    px: int,
    py: int,
    vx0: int,
    vy0: int,
    i: int,
    n: int,
)
    requires
        0 <= i < n <= ws.len(),
        ({
            let before = resolve_upto_spec(ws, px, py, vx0, vy0, i);
            triggered_spec(ws[i], px, py, before.0, before.1)
        }),
    ensures
        resolve_upto_spec(ws, px, py, vx0, vy0, n).2,
{
    lemma_found_monotone(ws, px, py, vx0, vy0, i + 1, n);
}

/// DETERMINISM. The physics step is a pure function: from one state, one
/// config and one wall set, two runs of the step reach the same next state.
pub proof fn lemma_step_deterministic(
    s: SimulationState,
    c: SimulationConfig,
    walls: Seq<Wall>,
    r1: SimulationState,
    r2: SimulationState,
)
    requires
        r1 == spec_step(s, c, walls),
        r2 == spec_step(s, c, walls),
    ensures
        r1 == r2,
{
}

/// SPEED INVARIANT. Every state reachable from the initial state through
/// physics steps keeps its speed within `[0, MAX_VELOCITY]`: the initial
/// state does, and the step preserves it together with well-formedness.
pub proof fn lemma_speed_invariant(s: SimulationState, c: SimulationConfig, walls: Seq<Wall>)
    requires
        s.wf(),
        c.wf(),
        s.frame < i64::MAX,
    ensures
        0 <= SimulationState::spec_initial().velocity <= MAX_VELOCITY,
        0 <= spec_step(s, c, walls).velocity <= MAX_VELOCITY,
{
    let acceleration = if c.human {
        shape_acceleration_spec(s.acceleration as int)
    } else {
        s.acceleration as int
    };
    let velocity = next_velocity_spec(s.velocity as int, acceleration, c.acceleration_scaler as int);
    assert(0 <= velocity <= MAX_VELOCITY);
    if velocity - (mul_spec(velocity, DAMP_FRACTION as int) + DAMP_CONSTANT) >= 0 {
        assert(0 <= velocity * (DAMP_FRACTION as int)) by (nonlinear_arith)
            requires
                0 <= velocity,
                DAMP_FRACTION > 0,
        ;
        vstd::arithmetic::div_mod::lemma_div_pos_is_pos(
            velocity * (DAMP_FRACTION as int),
            SCALE as int,
        );
    }
}

} // verus!

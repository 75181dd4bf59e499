//! The per-cycle sensing and decision pipeline.
//!
//! A cycle normalizes what the agent senses — distance to the nearest food,
//! the bearing toward it, the agent's own heading — into milli-unit signals
//! in `[0, SCALE]`, feeds them to the controller, and turns the output layer
//! into an action.  It also scores the cycle with a heuristic fitness
//! penalty in `[0, MAX_FITNESS_MILLI]`: lower is better.

use vstd::prelude::*;

use crate::arith::{isqrt, spec_min};
use crate::config::{
    FIRE_COOLDOWN_MS, FITNESS_STEP_MILLI, MAX_FITNESS_MILLI, SCALE, SHOOT_DIST_MILLI,
    SHOOT_THRESHOLD_MILLI, THRUST_DIST_MILLI, THRUST_THRESHOLD_MILLI, UPDATE_INTERVAL_MS,
    VISION_RADIUS_MILLI,
};

verus! {

/// What an agent decides to do in one cycle.  `shoot` is the raw desire of
/// the controller; whether a projectile actually launches is gated
/// separately by the fire cooldown.
#[derive(Clone, Copy, Debug, PartialEq, Eq, Structural)]
pub struct CellAction {
    /// Engage thrust along the current heading.
    pub thrust: bool,
    /// Turn left by the fixed spin step.
    pub spin_left: bool,
    /// Turn right by the fixed spin step.
    pub spin_right: bool,
    /// Ask to fire a projectile.
    pub shoot: bool,
}

/// `d` is the integer square root of `n`.
pub open spec fn is_floor_sqrt(n: int, d: int) -> bool {
    d >= 0 && d * d <= n < (d + 1) * (d + 1)
}

/// The integer square root (well defined for `n >= 0`: the witness is
/// unique).
pub open spec fn spec_sqrt(n: int) -> int {
    choose|d: int| is_floor_sqrt(n, d)
}

/// The integer square root is unique.
pub proof fn lemma_sqrt_unique(n: int, d: int)
    requires
        is_floor_sqrt(n, d),
    ensures
        spec_sqrt(n) == d,
{
    assert(is_floor_sqrt(n, spec_sqrt(n)));
    let d2 = spec_sqrt(n);
    if d < d2 {
        assert((d + 1) * (d + 1) <= d2 * d2) by (nonlinear_arith)
            requires
                0 <= d,
                d + 1 <= d2,
        ;
    } else if d2 < d {
        assert((d2 + 1) * (d2 + 1) <= d * d) by (nonlinear_arith)
            requires
                0 <= d2,
                d2 + 1 <= d,
        ;
    }
}

/// The normalized distance of a displacement: the straight-line distance
/// capped at the vision radius and scaled into `[0, SCALE]`.
pub open spec fn spec_norm_distance(dx: int, dy: int) -> int {
    spec_min(SCALE as int, spec_sqrt(dx * dx + dy * dy) * SCALE / (VISION_RADIUS_MILLI as int))
}

/// The normalized form of an angle in milli-degrees: wrapped into
/// `[0, 360)` degrees and divided by 360, landing in `[0, SCALE)`.
pub open spec fn spec_norm_angle(a: int) -> int {
    if a < 0 {
        (a + 360_000) / 360
    } else {
        a / 360
    }
}

/// Normalized distance between an agent and its target, milli-units.
pub fn norm_distance(dx_milli: i64, dy_milli: i64) -> (r: i64)
    requires
        -200_000_000 <= dx_milli <= 200_000_000,
        -200_000_000 <= dy_milli <= 200_000_000,
    ensures
        r == spec_norm_distance(dx_milli as int, dy_milli as int),
        0 <= r <= SCALE,
{
    assert(0 <= dx_milli * dx_milli <= 40_000_000_000_000_000) by (nonlinear_arith)
        requires
            -200_000_000 <= dx_milli <= 200_000_000,
    ;
    assert(0 <= dy_milli * dy_milli <= 40_000_000_000_000_000) by (nonlinear_arith)
        requires
            -200_000_000 <= dy_milli <= 200_000_000,
    ;
    let d2 = dx_milli * dx_milli + dy_milli * dy_milli;
    let d = isqrt(d2 as u64);
    assert(d * d <= 80_000_000_000_000_000) by (nonlinear_arith)
        requires
            d * d <= d2 as u64,
            d2 as u64 <= 80_000_000_000_000_000,
    ;
    assert(d <= 300_000_000) by (nonlinear_arith)
        requires
            d * d <= 80_000_000_000_000_000u64,
    ;
    proof {
        lemma_sqrt_unique(d2 as int, d as int);
    }
    let scaled = (d as i64) * SCALE / VISION_RADIUS_MILLI;
    if scaled > SCALE {
        SCALE
    } else {
        scaled
    }
}

/// Normalize an angle in milli-degrees into the controller's `[0, SCALE)`
/// signal range.
pub fn norm_angle(a_millideg: i64) -> (r: i64)
    requires
        -360_000 <= a_millideg < 360_000,
    ensures
        r == spec_norm_angle(a_millideg as int),
        0 <= r < SCALE,
{
    if a_millideg < 0 {
        (a_millideg + 360_000) / 360
    } else {
        a_millideg / 360
    }
}

/// Whether the fire cooldown has elapsed at `now`.
pub fn cooldown_over(last_fired_ms: u64, now_ms: u64) -> (r: bool)
    requires
        last_fired_ms <= now_ms,
    ensures
        r == (now_ms - last_fired_ms >= FIRE_COOLDOWN_MS),
{
    now_ms - last_fired_ms >= FIRE_COOLDOWN_MS
}

/// Whether an agent runs its decision cycle this tick: its own update
/// interval must have elapsed, and the shared heartbeat must have passed
/// the agent's phase offset, which staggers the population's decisions.
pub fn should_update(
    last_update_ms: u64,
    heartbeat_ms: u64,
    phase_offset_milli: u64,
    now_ms: u64,
) -> (r: bool)
    requires
        last_update_ms <= now_ms,
        heartbeat_ms <= now_ms,
    ensures
        r == (now_ms - last_update_ms >= UPDATE_INTERVAL_MS && now_ms - heartbeat_ms
            >= phase_offset_milli),
{
    if now_ms - last_update_ms < UPDATE_INTERVAL_MS {
        return false;
    }
    now_ms - heartbeat_ms >= phase_offset_milli
}

/// The decision an output layer encodes: spin toward the larger of the two
/// spin signals (no spin on a tie), thrust and shoot at their thresholds.
pub fn decide_action(outputs: &Vec<i64>) -> (r: CellAction)
    requires
        outputs@.len() == 4,
    ensures
        r.spin_left == (outputs@[0] > outputs@[1]),
        r.spin_right == (outputs@[1] > outputs@[0]),
        r.thrust == (outputs@[2] >= THRUST_THRESHOLD_MILLI),
        r.shoot == (outputs@[3] >= SHOOT_THRESHOLD_MILLI),
{
    CellAction {
        thrust: outputs[2] >= THRUST_THRESHOLD_MILLI,
        spin_left: outputs[0] > outputs[1],
        spin_right: outputs[1] > outputs[0],
        shoot: outputs[3] >= SHOOT_THRESHOLD_MILLI,
    }
}

/// The heuristic fitness penalty of one cycle: start at the maximum and
/// subtract one unit for each productive act — thrusting while far from the
/// target, spinning toward it, shooting while near it.  Lower is better.
pub open spec fn spec_fitness_sample(
    dist: int,
    bearing: int,
    heading: int,
    o0: int,
    o1: int,
    o2: int,
    o3: int,
) -> int {
    MAX_FITNESS_MILLI - (if dist > THRUST_DIST_MILLI && o2 >= THRUST_THRESHOLD_MILLI {
        FITNESS_STEP_MILLI as int
    } else {
        0
    }) - (if heading < bearing && o0 > o1 {
        FITNESS_STEP_MILLI as int
    } else if heading > bearing && o1 > o0 {
        FITNESS_STEP_MILLI as int
    } else {
        0
    }) - (if dist < SHOOT_DIST_MILLI && o3 >= SHOOT_THRESHOLD_MILLI {
        FITNESS_STEP_MILLI as int
    } else {
        0
    })
}

/// Score one cycle against the heuristic: the inputs are the normalized
/// sense signals, the outputs the controller's final layer.
pub fn calc_fitness(
    dist: i64,
    bearing: i64,
    heading: i64,
    outputs: &Vec<i64>,
) -> (r: i64)
    requires
        outputs@.len() == 4,
    ensures
        r == spec_fitness_sample(
            dist as int,
            bearing as int,
            heading as int,
            outputs@[0] as int,
            outputs@[1] as int,
            outputs@[2] as int,
            outputs@[3] as int,
        ),
        0 <= r <= MAX_FITNESS_MILLI,
{
    let mut score: i64 = 0;
    if dist > THRUST_DIST_MILLI && outputs[2] >= THRUST_THRESHOLD_MILLI {
        score = score + FITNESS_STEP_MILLI;
    }
    if heading < bearing && outputs[0] > outputs[1] {
        score = score + FITNESS_STEP_MILLI;
    } else if heading > bearing && outputs[1] > outputs[0] {
        score = score + FITNESS_STEP_MILLI;
    }
    if dist < SHOOT_DIST_MILLI && outputs[3] >= SHOOT_THRESHOLD_MILLI {
        score = score + FITNESS_STEP_MILLI;
    }
    MAX_FITNESS_MILLI - score
}

} // verus!

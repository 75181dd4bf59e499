//! Tunable constants of the engine.
//!
//! Quantities that are fractional in world units are held in milli-units:
//! `_MILLI` values count thousandths of a world unit (positions, energy,
//! normalized network signals), `_MILLI2` values count squared milli-units,
//! and times are milliseconds on the collaborator's monotonic clock.

use vstd::prelude::*;

verus! {

/// Fixed-point scale: milli-units per world unit.
pub const SCALE: i64 = 1000;

// World
/// Width of the world, milli-units.
pub const WORLD_W_MILLI: i64 = 10_000_000;
/// Height of the world, milli-units.
pub const WORLD_H_MILLI: i64 = 10_000_000;

// Population
/// Population cap, and the size of a reseeded generation.
pub const NUM_CELLS: usize = 4000;

// Energy economy
/// Energy a ledger entry starts at when first touched by decay.
pub const BASE_ENERGY_MILLI: i64 = 100_000;
/// Upper clamp on any energy value.
pub const MAX_ENERGY_MILLI: i64 = 4_000_000;
/// Energy credited to a projectile's owner when it hits food.
pub const ENERGY_PER_FOOD_MILLI: i64 = 70_000;
/// Factor applied to an agent's average fitness on each decay cycle.
pub const ENERGY_DECAY_RATE_MILLI: i64 = 5_000;
/// Energy lost when a projectile expires without hitting food.
pub const PROJECTILE_MISS_PENALTY_MILLI: i64 = 5_000;
/// Energy lost on a decay cycle by an agent that has not fired for too long.
pub const INACTIVITY_PENALTY_MILLI: i64 = 30_000;
/// A ledger entry untouched for longer than this is purged.
pub const LEDGER_TTL_MS: u64 = 10_000;
/// Cadence of the decay cycle.
pub const ENERGY_UPDATE_INTERVAL_MS: u64 = 1_000;

// Decision cycle
/// Global floor on the interval between two decisions of one agent.
pub const UPDATE_INTERVAL_MS: u64 = 500;
/// How far an agent can see food, milli-units.
pub const VISION_RADIUS_MILLI: i64 = 200_000;
/// Cooldown between two projectiles of one agent.
pub const FIRE_COOLDOWN_MS: u64 = 1_000;
/// An agent that has not fired for this long is penalized as inactive.
pub const INACTIVITY_AGE_MS: u64 = 8_000;
/// Lifespan of a projectile; expiry without a hit is a miss.
pub const PROJECTILE_LIFESPAN_MS: u64 = 1_000;

// Decision thresholds, on normalized signals in [0, SCALE]
/// The thrust output fires at or above this value.
pub const THRUST_THRESHOLD_MILLI: i64 = 700;
/// The shoot output fires at or above this value.
pub const SHOOT_THRESHOLD_MILLI: i64 = 700;
/// Thrusting counts as productive only beyond this normalized distance.
pub const THRUST_DIST_MILLI: i64 = 300;
/// Shooting counts as productive only under this normalized distance.
pub const SHOOT_DIST_MILLI: i64 = 500;
/// A fitness sample starts here and loses one unit per productive act.
pub const MAX_FITNESS_MILLI: i64 = 4_000;
/// Machine-level ceiling on a window sample: generous headroom over the
/// heuristic's range, chosen only so a window sum stays far inside `i64`.
pub const SAMPLE_LIMIT_MILLI: i64 = 1_000_000_000_000;
/// One fitness unit, subtracted per productive act of a cycle.
pub const FITNESS_STEP_MILLI: i64 = 1_000;
/// Fitness reported for an empty window: the midpoint of the sample range.
pub const NEUTRAL_FITNESS_MILLI: i64 = 2_000;
/// Bound on the rolling fitness window.
pub const FITNESS_WINDOW: usize = 10;

// Culling
/// Start of the age window of the unmoving rule, inclusive.
pub const UNMOVING_MIN_AGE_MS: u64 = 10_000;
/// End of the age window of the unmoving rule, exclusive.
pub const UNMOVING_MAX_AGE_MS: u64 = 20_000;
/// Squared displacement under which the unmoving rule removes, milli-units squared.
pub const UNMOVING_DISP_SQ_MILLI2: i64 = 50_000_000;
/// Start of the age window of the revolving rule, inclusive.
pub const REVOLVING_MIN_AGE_MS: u64 = 15_000;
/// End of the age window of the revolving rule, exclusive.
pub const REVOLVING_MAX_AGE_MS: u64 = 18_000;
/// Squared displacement under which the revolving rule removes, milli-units squared.
pub const REVOLVING_DISP_SQ_MILLI2: i64 = 25_000_000_000;
/// Start of the age window of the one-dimensional-travel rule, inclusive.
pub const ONE_DIM_MIN_AGE_MS: u64 = 20_000;
/// End of the age window of the one-dimensional-travel rule, exclusive.
pub const ONE_DIM_MAX_AGE_MS: u64 = 30_000;
/// The one-dimensional rule removes when one axis of displacement reaches
/// this many times the other.
pub const ONE_DIM_RATIO: i64 = 3;
/// Cadence of the culling pass.
pub const CULL_INTERVAL_MS: u64 = 500;

// Reproduction
/// Cadence of the reproduction pass.
pub const REPRODUCTION_INTERVAL_MS: u64 = 500;
/// Cadence of the repopulation check.
pub const RESEED_INTERVAL_MS: u64 = 5_000;
/// Resolution of the uniform reproduction draw.
pub const REPRO_DRAW_SCALE: u64 = 1_000_000;

// Controller
/// Width of the input layer: distance, bearing, heading.
pub const NUM_INPUT_NODES: usize = 3;
/// Width of the single hidden layer.
pub const NUM_HIDDEN_NODES: usize = 8;
/// Width of the output layer: spin-left, spin-right, thrust, shoot.
pub const NUM_OUTPUT_NODES: usize = 4;
/// Probability, in milli, that one parameter is displaced by a mutation pass.
pub const MUTATION_RATE_MILLI: u64 = 100;
/// Largest displacement of one parameter in a mutation pass, milli.
pub const MUTATION_VARIATION_MILLI: u64 = 100;
/// Initial parameters are drawn uniformly from `[-INIT_WEIGHT_MILLI, INIT_WEIGHT_MILLI]`.
pub const INIT_WEIGHT_MILLI: i64 = 1_000;
/// Parameters are clamped into `[-WEIGHT_LIMIT_MILLI, WEIGHT_LIMIT_MILLI]`.
pub const WEIGHT_LIMIT_MILLI: i64 = 8_000;
/// Bound on a layer width, so a weighted sum stays well inside `i64`.
pub const MAX_LAYER_WIDTH: usize = 1_024;

// Food
/// Target number of food items in the world.
pub const NUM_FOOD: usize = 5_000;
/// Food is replenished in chunks of this size once it runs this far down.
pub const FOOD_CHUNK: usize = 500;

} // verus!

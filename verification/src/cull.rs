//! Culling rules: heuristics that remove agents whose strategy is
//! degenerate — out of energy, unmoving, revolving in place, or travelling
//! along a single axis.  The rules are evaluated in a fixed order and the
//! first match removes the agent.

use vstd::prelude::*;

use crate::arith::{abs_diff_i64, spec_abs};
use crate::config::{
    ONE_DIM_MAX_AGE_MS, ONE_DIM_MIN_AGE_MS, ONE_DIM_RATIO, REVOLVING_DISP_SQ_MILLI2,
    REVOLVING_MAX_AGE_MS, REVOLVING_MIN_AGE_MS, UNMOVING_DISP_SQ_MILLI2, UNMOVING_MAX_AGE_MS,
    UNMOVING_MIN_AGE_MS,
};

verus! {

/// Why an agent was culled.
#[derive(Clone, Copy, Debug, PartialEq, Eq, Structural)]
pub enum CullReason {
    /// Energy at or below zero.
    LowEnergy,
    /// Barely displaced from its birthplace in its early-mid life.
    Unmoving,
    /// Only a small displacement at a later age: slow circular drift.
    Revolving,
    /// Displacement almost entirely along one axis.
    OneDimensional,
}

/// The culling decision for one agent, over its ledger energy (if any),
/// its age, and its displacement from its birthplace.  Rules are tried in
/// order; the first match removes.
pub open spec fn spec_cull_decision(
    energy: Option<i64>,
    age_ms: u64,
    dx: int,
    dy: int,
) -> Option<CullReason> {
    if energy is Some && energy->0 <= 0 {
        Some(CullReason::LowEnergy)
    } else if UNMOVING_MIN_AGE_MS <= age_ms < UNMOVING_MAX_AGE_MS && dx * dx + dy * dy
        < UNMOVING_DISP_SQ_MILLI2 {
        Some(CullReason::Unmoving)
    } else if REVOLVING_MIN_AGE_MS <= age_ms < REVOLVING_MAX_AGE_MS && dx * dx + dy * dy
        < REVOLVING_DISP_SQ_MILLI2 {
        Some(CullReason::Revolving)
    } else if ONE_DIM_MIN_AGE_MS <= age_ms < ONE_DIM_MAX_AGE_MS && (spec_abs(dx) >= ONE_DIM_RATIO
        * spec_abs(dy) || spec_abs(dy) >= ONE_DIM_RATIO * spec_abs(dx)) {
        Some(CullReason::OneDimensional)
    } else {
        None
    }
}

/// Decide whether one agent is culled, and why.  `dx`/`dy` are the agent's
/// displacement from its birthplace in milli-units; `energy` is its ledger
/// entry, if one exists.
pub fn cull_decision(energy: Option<i64>, age_ms: u64, dx_milli: i64, dy_milli: i64) -> (r:
    Option<CullReason>)
    requires
        -200_000_000 <= dx_milli <= 200_000_000,
        -200_000_000 <= dy_milli <= 200_000_000,
    ensures
        r == spec_cull_decision(energy, age_ms, dx_milli as int, dy_milli as int),
{
    match energy {
        Some(e) => {
            if e <= 0 {
                return Some(CullReason::LowEnergy);
            }
        },
        None => {},
    }
    assert(0 <= dx_milli * dx_milli <= 40_000_000_000_000_000) by (nonlinear_arith)
        requires
            -200_000_000 <= dx_milli <= 200_000_000,
    ;
    assert(0 <= dy_milli * dy_milli <= 40_000_000_000_000_000) by (nonlinear_arith)
        requires
            -200_000_000 <= dy_milli <= 200_000_000,
    ;
    let disp_sq = dx_milli * dx_milli + dy_milli * dy_milli;
    if UNMOVING_MIN_AGE_MS <= age_ms && age_ms < UNMOVING_MAX_AGE_MS
        && disp_sq < UNMOVING_DISP_SQ_MILLI2 {
        return Some(CullReason::Unmoving);
    }
    if REVOLVING_MIN_AGE_MS <= age_ms && age_ms < REVOLVING_MAX_AGE_MS
        && disp_sq < REVOLVING_DISP_SQ_MILLI2 {
        return Some(CullReason::Revolving);
    }
    if ONE_DIM_MIN_AGE_MS <= age_ms && age_ms < ONE_DIM_MAX_AGE_MS {
        let ax = abs_diff_i64(dx_milli, 0);
        let ay = abs_diff_i64(dy_milli, 0);
        if ax >= ONE_DIM_RATIO * ay || ay >= ONE_DIM_RATIO * ax {
            return Some(CullReason::OneDimensional);
        }
    }
    None
}

} // verus!

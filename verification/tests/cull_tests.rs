//! Culling rules and their exact boundaries.

use ava::cull::{cull_decision, CullReason};

#[test]
fn energy_at_zero_is_removed_and_positive_is_not() {
    assert_eq!(
        cull_decision(Some(0), 0, 1_000_000, 1_000_000),
        Some(CullReason::LowEnergy)
    );
    assert_eq!(
        cull_decision(Some(-5), 0, 1_000_000, 1_000_000),
        Some(CullReason::LowEnergy)
    );
    assert_eq!(cull_decision(Some(1), 0, 1_000_000, 1_000_000), None);
    // No ledger entry: the energy rule does not apply.
    assert_eq!(cull_decision(None, 0, 1_000_000, 1_000_000), None);
}

#[test]
fn unmoving_rule_age_window_is_inclusive_exclusive() {
    // Squared displacement 0 < 50, inside [10s, 20s).
    assert_eq!(cull_decision(None, 9_999, 0, 0), None);
    assert_eq!(cull_decision(None, 10_000, 0, 0), Some(CullReason::Unmoving));
    assert_eq!(cull_decision(None, 19_999, 0, 0), Some(CullReason::Unmoving));
    // At 20s the unmoving window has closed; the one-dimensional window
    // opens, and a zero displacement counts as one-dimensional.
    assert_eq!(
        cull_decision(None, 20_000, 0, 0),
        Some(CullReason::OneDimensional)
    );
}

#[test]
fn unmoving_rule_displacement_boundary() {
    // 7071^2 = 49 999 041 < 50 000 000 (milli-units squared): removed.
    assert_eq!(
        cull_decision(None, 12_000, 7_071, 0),
        Some(CullReason::Unmoving)
    );
    // 7072^2 = 50 013 184: just outside the threshold, kept.
    assert_eq!(cull_decision(None, 12_000, 7_072, 0), None);
}

#[test]
fn revolving_rule_uses_the_looser_radius_in_its_window() {
    // 158 113^2 is just under 25 000 000 000; too far for the unmoving
    // radius, near enough for the revolving one.
    assert_eq!(
        cull_decision(None, 15_000, 158_113, 0),
        Some(CullReason::Revolving)
    );
    assert_eq!(cull_decision(None, 15_000, 158_114, 0), None);
    // Outside the [15s, 18s) window the rule is silent.
    assert_eq!(cull_decision(None, 14_999, 158_113, 0), None);
    assert_eq!(cull_decision(None, 18_000, 158_113, 0), None);
}

#[test]
fn one_dimensional_rule_fires_at_three_to_one_inclusive() {
    // |dx| exactly three times |dy|: removed.
    assert_eq!(
        cull_decision(None, 25_000, 3_000_000, 1_000_000),
        Some(CullReason::OneDimensional)
    );
    // Just under three to one either way: kept.
    assert_eq!(cull_decision(None, 25_000, 2_999_999, 1_000_000), None);
    // The other axis dominating works the same.
    assert_eq!(
        cull_decision(None, 25_000, -1_000_000, -3_000_000),
        Some(CullReason::OneDimensional)
    );
    // Outside [20s, 30s) the rule is silent.
    assert_eq!(cull_decision(None, 30_000, 3_000_000, 1_000_000), None);
}

#[test]
fn rules_are_checked_in_order() {
    // Zero energy wins over every movement rule.
    assert_eq!(
        cull_decision(Some(0), 12_000, 0, 0),
        Some(CullReason::LowEnergy)
    );
    // In the overlap of the unmoving and revolving windows, a small
    // displacement reports the earlier rule.
    assert_eq!(cull_decision(None, 16_000, 0, 0), Some(CullReason::Unmoving));
}

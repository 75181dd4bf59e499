//! Sense normalization, the decision policy, and the fitness heuristic.

use ava::sense::{calc_fitness, cooldown_over, decide_action, norm_angle, norm_distance,
    should_update};

#[test]
fn distance_normalizes_against_the_vision_radius() {
    // On top of the target.
    assert_eq!(norm_distance(0, 0), 0);
    // Half the vision radius of 200 units.
    assert_eq!(norm_distance(100_000, 0), 500);
    // Exactly the vision radius.
    assert_eq!(norm_distance(200_000, 0), 1000);
    // Beyond the vision radius: capped at one.
    assert_eq!(norm_distance(5_000_000, 5_000_000), 1000);
    // A 3-4-5 triangle: distance 100 units out of 200.
    assert_eq!(norm_distance(60_000, 80_000), 500);
}

#[test]
fn angles_wrap_into_one_turn_and_divide_by_360() {
    assert_eq!(norm_angle(0), 0);
    assert_eq!(norm_angle(180_000), 500);
    assert_eq!(norm_angle(359_999), 999);
    // Negative angles gain a full turn first: -90 degrees is 270.
    assert_eq!(norm_angle(-90_000), 750);
    assert_eq!(norm_angle(-359_999), 0);
}

#[test]
fn spin_goes_to_the_larger_signal_and_a_tie_spins_nowhere() {
    let a = decide_action(&vec![900, 100, 200, 100]);
    assert!(a.spin_left && !a.spin_right);
    let a = decide_action(&vec![100, 900, 200, 100]);
    assert!(!a.spin_left && a.spin_right);
    let a = decide_action(&vec![500, 500, 200, 100]);
    assert!(!a.spin_left && !a.spin_right);
}

#[test]
fn thrust_and_shoot_fire_at_their_thresholds() {
    let a = decide_action(&vec![0, 0, 700, 699]);
    assert!(a.thrust && !a.shoot);
    let a = decide_action(&vec![0, 0, 699, 700]);
    assert!(!a.thrust && a.shoot);
}

#[test]
fn cooldown_gates_at_exactly_one_second() {
    assert!(!cooldown_over(1_000, 1_999));
    assert!(cooldown_over(1_000, 2_000));
}

#[test]
fn update_gate_needs_both_interval_and_heartbeat_phase() {
    // Own interval not yet elapsed.
    assert!(!should_update(600, 0, 0, 1_099));
    assert!(should_update(600, 0, 0, 1_100));
    // Heartbeat has not yet passed the agent's phase offset.
    assert!(!should_update(0, 900, 250, 1_100));
    assert!(should_update(0, 850, 250, 1_100));
}

#[test]
fn fitness_for_the_reference_cycle() {
    // dist 0.2, bearing 0.1, heading 0.1; outputs: spin-left 0.9,
    // spin-right 0.1, thrust 0.2, shoot 0.9.  Only the shoot rule fires
    // (near target): the spin credit needs a strict heading/bearing
    // difference and the thrust rule needs distance beyond 0.3.
    let f = calc_fitness(200, 100, 100, &vec![900, 100, 200, 900]);
    assert_eq!(f, 3000);
    // With the heading strictly under the bearing the spin credit fires
    // too.
    let f = calc_fitness(200, 100, 50, &vec![900, 100, 200, 900]);
    assert_eq!(f, 2000);
}

#[test]
fn thrust_rule_is_strict_at_the_boundary_distance() {
    // Thrust engaged, distance exactly 0.3: no credit.
    let f = calc_fitness(300, 100, 100, &vec![0, 0, 900, 0]);
    assert_eq!(f, 4000);
    // One step beyond: the credit fires.
    let f = calc_fitness(301, 100, 100, &vec![0, 0, 900, 0]);
    assert_eq!(f, 3000);
}

#[test]
fn shoot_rule_is_strict_at_the_boundary_distance() {
    // Shooting at distance exactly 0.5: no credit.
    let f = calc_fitness(500, 100, 100, &vec![0, 0, 0, 900]);
    assert_eq!(f, 4000);
    let f = calc_fitness(499, 100, 100, &vec![0, 0, 0, 900]);
    assert_eq!(f, 3000);
}

#[test]
fn all_three_rules_together_reach_the_best_score() {
    // Far target, thrusting, spinning toward it... but shoot needs a near
    // target, so at most two credits can combine with thrust.
    let f = calc_fitness(900, 200, 100, &vec![900, 100, 900, 900]);
    assert_eq!(f, 2000);
    // Near target: spin credit plus shoot credit.
    let f = calc_fitness(200, 200, 100, &vec![900, 100, 900, 900]);
    assert_eq!(f, 2000);
}

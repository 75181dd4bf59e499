//! The energy ledger: decay, credits, penalties and TTL eviction.

use ava::config::{
    BASE_ENERGY_MILLI, ENERGY_DECAY_RATE_MILLI, ENERGY_PER_FOOD_MILLI, MAX_ENERGY_MILLI,
    PROJECTILE_MISS_PENALTY_MILLI,
};
use ava::ledger::EnergyMap;

#[test]
fn decay_creates_missing_entry_at_base_energy() {
    let mut m = EnergyMap::new();
    m.decay(7, 4000, ENERGY_DECAY_RATE_MILLI, 1_000);
    assert_eq!(m.get_energy(7), Some(BASE_ENERGY_MILLI));
}

#[test]
fn decay_subtracts_rate_times_fitness() {
    let mut m = EnergyMap::new();
    m.decay(7, 4000, ENERGY_DECAY_RATE_MILLI, 1_000);
    // decay amount = 5000 * 4000 / 1000 = 20000 milli
    m.decay(7, 4000, ENERGY_DECAY_RATE_MILLI, 2_000);
    assert_eq!(m.get_energy(7), Some(BASE_ENERGY_MILLI - 20_000));
}

#[test]
fn energy_may_go_negative_before_culling() {
    let mut m = EnergyMap::new();
    m.credit(3, 1_000, 0);
    for t in 1..40u64 {
        m.decay(3, 4000, ENERGY_DECAY_RATE_MILLI, t);
    }
    assert!(m.get_energy(3).unwrap() < 0);
}

#[test]
fn food_credit_clamps_at_the_maximum() {
    let mut m = EnergyMap::new();
    m.credit(1, MAX_ENERGY_MILLI, 0);
    assert_eq!(m.get_energy(1), Some(MAX_ENERGY_MILLI));
    // Crediting food at the maximum leaves the energy unchanged there.
    m.food_hit(1, 1);
    assert_eq!(m.get_energy(1), Some(MAX_ENERGY_MILLI));
}

#[test]
fn food_credit_creates_missing_entry_with_the_credit() {
    let mut m = EnergyMap::new();
    m.food_hit(9, 5);
    assert_eq!(m.get_energy(9), Some(ENERGY_PER_FOOD_MILLI));
}

#[test]
fn miss_penalty_hits_only_existing_entries() {
    let mut m = EnergyMap::new();
    m.credit(2, 100_000, 0);
    m.projectile_missed(2, 1);
    assert_eq!(m.get_energy(2), Some(100_000 - PROJECTILE_MISS_PENALTY_MILLI));
    m.projectile_missed(55, 1);
    assert_eq!(m.get_energy(55), None);
}

#[test]
fn stale_entry_is_purged_on_the_next_decay_cycle() {
    let mut m = EnergyMap::new();
    m.credit(4, 50_000, 0);
    // Untouched for more than ten seconds: the next cycle purges it.
    let none: Vec<(u32, i64)> = Vec::new();
    m.decay_cycle(&none, ENERGY_DECAY_RATE_MILLI, 10_001);
    assert_eq!(m.get_energy(4), None);
}

#[test]
fn fresh_entry_survives_the_decay_cycle() {
    let mut m = EnergyMap::new();
    m.credit(4, 50_000, 0);
    let none: Vec<(u32, i64)> = Vec::new();
    m.decay_cycle(&none, ENERGY_DECAY_RATE_MILLI, 9_999);
    assert_eq!(m.get_energy(4), Some(50_000));
}

#[test]
fn entry_touched_exactly_at_ttl_survives() {
    let mut m = EnergyMap::new();
    m.credit(4, 50_000, 0);
    let none: Vec<(u32, i64)> = Vec::new();
    m.decay_cycle(&none, ENERGY_DECAY_RATE_MILLI, 10_000);
    assert_eq!(m.get_energy(4), Some(50_000));
}

#[test]
fn decay_cycle_touches_living_agents_and_keeps_them() {
    let mut m = EnergyMap::new();
    m.credit(6, 50_000, 0);
    let agents = vec![(6u32, 2000i64)];
    // Touched by the cycle itself, so it survives even at a late instant.
    m.decay_cycle(&agents, ENERGY_DECAY_RATE_MILLI, 60_000);
    // decay amount = 5000 * 2000 / 1000 = 10000
    assert_eq!(m.get_energy(6), Some(40_000));
}

#[test]
fn removed_entry_is_gone() {
    let mut m = EnergyMap::new();
    m.credit(8, 70_000, 0);
    assert!(m.contains(8));
    m.remove_entry(8);
    assert!(!m.contains(8));
}

#[test]
fn max_energy_is_the_population_maximum() {
    let mut m = EnergyMap::new();
    assert_eq!(m.max_energy(), None);
    m.credit(1, 50_000, 0);
    m.credit(2, 90_000, 0);
    m.credit(3, 20_000, 0);
    assert_eq!(m.max_energy(), Some(90_000));
}

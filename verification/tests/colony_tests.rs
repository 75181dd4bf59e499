//! The colony: decision cycles, reproduction, repopulation, collisions.

use ava::colony::{resolve_hit, Agent, AgentSense, Colony, Contact};
use ava::config::{MAX_ENERGY_MILLI, NUM_CELLS};
use ava::forage::build_index;
use ava::ledger::EnergyMap;
use ava::net::{standard_widths, Layer, Net};
use ava::window::FitnessScores;

/// A hand-built agent with an all-zero controller of the standard shape.
fn test_agent(id: u32, x: i64, y: i64) -> Agent {
    let widths = standard_widths();
    let mut layers = Vec::new();
    for l in 0..widths.len() - 1 {
        layers.push(Layer {
            weights: vec![vec![0i64; widths[l]]; widths[l + 1]],
            biases: vec![0i64; widths[l + 1]],
        });
    }
    Agent {
        id,
        birth_x_milli: x,
        birth_y_milli: y,
        birth_ms: 0,
        last_update_ms: 0,
        last_fired_ms: 0,
        phase_offset_milli: 0,
        offspring: 0,
        net: Net { widths, layers },
        scores: FitnessScores::new(),
    }
}

fn small_colony(n: u32) -> Colony {
    let mut c = Colony::new();
    for i in 0..n {
        c.agents.push(test_agent(i + 1, 0, 0));
    }
    c.next_id = n;
    c
}

#[test]
fn reseed_fills_an_empty_colony_to_the_target_size() {
    let mut c = Colony::new();
    let orders = c.reseed(5_000);
    assert_eq!(orders.len(), NUM_CELLS);
    assert_eq!(c.population(), NUM_CELLS);
    // Every seeded agent's action stamps start at its birth instant.
    assert_eq!(c.agents[0].birth_ms, 5_000);
    assert_eq!(c.agents[0].last_update_ms, 5_000);
    assert_eq!(c.agents[0].last_fired_ms, 5_000);
    // Fresh ids, all distinct.
    let mut ids: Vec<u32> = orders.iter().map(|o| o.id).collect();
    ids.sort();
    ids.dedup();
    assert_eq!(ids.len(), NUM_CELLS);
}

#[test]
fn reseed_leaves_a_living_population_alone() {
    let mut c = small_colony(1);
    let orders = c.reseed(5_000);
    assert_eq!(orders.len(), 0);
    assert_eq!(c.population(), 1);
}

#[test]
fn reproduction_at_the_cap_spawns_nothing() {
    let mut c = Colony::new();
    c.reseed(0);
    assert_eq!(c.population(), NUM_CELLS);
    // Give every agent the maximum energy: reproduction would be certain
    // if the cap did not stop it.
    let mut ledger = EnergyMap::new();
    for a in &c.agents {
        ledger.credit(a.id, MAX_ENERGY_MILLI, 0);
    }
    let orders = c.reproduce(&ledger, 1_000);
    assert_eq!(orders.len(), 0);
    assert_eq!(c.population(), NUM_CELLS);
    // No order, no counter: at the cap every offspring count is untouched.
    for a in &c.agents {
        assert_eq!(a.offspring, 0);
    }
}

#[test]
fn reproduction_at_maximum_energy_is_certain_below_the_cap() {
    let mut c = small_colony(2);
    let mut ledger = EnergyMap::new();
    ledger.credit(1, MAX_ENERGY_MILLI, 0);
    ledger.credit(2, MAX_ENERGY_MILLI, 0);
    let orders = c.reproduce(&ledger, 1_000);
    assert_eq!(orders.len(), 2);
    assert_eq!(c.population(), 4);
    // Fresh, distinct ids beyond the previous counter.
    assert_eq!(orders[0].id, 3);
    assert_eq!(orders[1].id, 4);
    assert_eq!(c.agents[0].offspring, 1);
    assert_eq!(c.agents[1].offspring, 1);
    // The children carry the parents' topology, and their action stamps
    // start at their birth instant.
    assert_eq!(c.agents[2].net.widths, c.agents[0].net.widths);
    assert_eq!(c.agents[2].birth_ms, 1_000);
    assert_eq!(c.agents[2].last_update_ms, 1_000);
    assert_eq!(c.agents[2].last_fired_ms, 1_000);
}

#[test]
fn orders_name_their_parents_and_bump_only_them() {
    // Agent 1 has a maximal positive entry, agent 2 none: exactly agent 1
    // reproduces, and only its counter rises.
    let mut c = small_colony(2);
    let mut ledger = EnergyMap::new();
    ledger.credit(1, MAX_ENERGY_MILLI, 0);
    let orders = c.reproduce(&ledger, 2_000);
    assert_eq!(orders.len(), 1);
    assert_eq!(orders[0].parent_id, 1);
    assert_eq!(c.agents[0].offspring, 1);
    assert_eq!(c.agents[1].offspring, 0);
    assert_eq!(c.population(), 3);
}

#[test]
fn agents_without_energy_entries_do_not_reproduce() {
    let mut c = small_colony(3);
    let ledger = EnergyMap::new();
    let orders = c.reproduce(&ledger, 1_000);
    assert_eq!(orders.len(), 0);
    assert_eq!(c.population(), 3);
    for a in &c.agents {
        assert_eq!(a.offspring, 0);
    }
}

#[test]
fn cull_pass_removes_flagged_agents_and_their_entries() {
    let mut c = small_colony(3);
    let mut ledger = EnergyMap::new();
    ledger.credit(1, 50_000, 0);
    ledger.credit(2, 50_000, 0);
    // Agent 2 is out of energy; agents 1 and 3 are fine and young.
    ledger.penalize(2, 60_000, 0);
    let senses = vec![
        AgentSense { x_milli: 9_000_000, y_milli: 0, heading_millideg: 0 };
        3
    ];
    let flags = c.cull_flags(&ledger, &senses, 1_000);
    assert_eq!(flags, vec![false, true, false]);
    let removed = c.remove_culled(&mut ledger, &flags);
    assert_eq!(removed, vec![2]);
    assert_eq!(c.population(), 2);
    assert_eq!(c.agents[0].id, 1);
    assert_eq!(c.agents[1].id, 3);
    assert!(!ledger.contains(2));
    assert!(ledger.contains(1));
}

#[test]
fn unmoving_agents_are_culled_in_their_window() {
    let mut c = small_colony(2);
    // Agent 1 sits on its birthplace; agent 2 wandered far.
    let senses = vec![
        AgentSense { x_milli: 0, y_milli: 0, heading_millideg: 0 },
        AgentSense { x_milli: 4_000_000, y_milli: 3_000_000, heading_millideg: 0 },
    ];
    let ledger = EnergyMap::new();
    let flags = c.cull_flags(&ledger, &senses, 12_000);
    assert_eq!(flags, vec![true, false]);
}

#[test]
fn inactivity_penalty_charges_survivors_only_after_the_threshold() {
    let c = small_colony(1);
    let mut ledger = EnergyMap::new();
    ledger.credit(1, 100_000, 0);
    // Last fired at 0; at 7 999 ms nothing happens yet.
    c.penalize_inactive(&mut ledger, 7_999);
    assert_eq!(ledger.get_energy(1), Some(100_000));
    c.penalize_inactive(&mut ledger, 8_000);
    assert_eq!(ledger.get_energy(1), Some(70_000));
}

#[test]
fn decision_cycle_runs_when_due_and_skips_when_not() {
    let mut c = small_colony(1);
    let idx = build_index(vec![(10_000, 0)]);
    let sense = AgentSense { x_milli: 0, y_milli: 0, heading_millideg: 0 };
    // Not due: the agent updated at 0 and only 499 ms have passed.
    assert_eq!(c.begin_cycle(0, sense, &idx, 0, 499), None);
    // Due at 500 ms: the nearest food is the target.
    let target = c.begin_cycle(0, sense, &idx, 0, 500);
    assert_eq!(target, Some((10_000, 0)));
    // Immediately afterwards the agent is throttled again.
    assert_eq!(c.begin_cycle(0, sense, &idx, 0, 700), None);
}

#[test]
fn phase_offset_staggers_the_cycle_against_the_heartbeat() {
    let mut c = small_colony(1);
    c.agents[0].phase_offset_milli = 400;
    let idx = build_index(vec![(10_000, 0)]);
    let sense = AgentSense { x_milli: 0, y_milli: 0, heading_millideg: 0 };
    // The heartbeat fired 300 ms ago: not yet past this agent's phase.
    assert_eq!(c.begin_cycle(0, sense, &idx, 700, 1_000), None);
    // 400 ms after the heartbeat the agent runs.
    assert!(c.begin_cycle(0, sense, &idx, 600, 1_000).is_some());
}

#[test]
fn finished_cycle_decides_records_and_gates_fire() {
    let mut c = small_colony(1);
    // An all-zero controller outputs the ramp midpoint 500 everywhere:
    // no spin (tie), no thrust, no shoot.
    let sense = AgentSense { x_milli: 0, y_milli: 0, heading_millideg: 0 };
    let out = c.finish_cycle(0, sense, (10_000, 0), 0, 2_000);
    assert!(!out.action.spin_left && !out.action.spin_right);
    assert!(!out.action.thrust && !out.action.shoot);
    assert!(!out.fire);
    // Distance 10 units of 200, all rules silent: the neutral start.
    assert_eq!(out.fitness_milli, 4_000);
    // The sample landed in the window.
    assert_eq!(c.agents[0].scores.len(), 1);
    assert_eq!(c.agents[0].scores.get_fitness(), 4_000);
}

#[test]
fn shoot_output_fires_and_resets_the_cooldown() {
    let mut c = small_colony(1);
    // Saturate the shoot output with a large bias on output node 3.
    c.agents[0].net.layers[1].biases[3] = 2_000;
    let sense = AgentSense { x_milli: 0, y_milli: 0, heading_millideg: 0 };
    let out = c.finish_cycle(0, sense, (10_000, 0), 0, 2_000);
    assert!(out.action.shoot && out.fire);
    assert_eq!(c.agents[0].last_fired_ms, 2_000);
    // Fired again immediately: the cooldown blocks the projectile.
    let out = c.finish_cycle(0, sense, (10_000, 0), 0, 2_500);
    assert!(out.action.shoot && !out.fire);
    assert_eq!(c.agents[0].last_fired_ms, 2_000);
}

#[test]
fn collision_credit_goes_to_the_projectile_owner() {
    assert_eq!(resolve_hit(Contact::Projectile(7), Contact::Food), Some(7));
    assert_eq!(resolve_hit(Contact::Food, Contact::Projectile(9)), Some(9));
    assert_eq!(resolve_hit(Contact::Food, Contact::Food), None);
    assert_eq!(resolve_hit(Contact::Projectile(1), Contact::Projectile(2)), None);
    assert_eq!(resolve_hit(Contact::Other, Contact::Food), None);
    assert_eq!(resolve_hit(Contact::Projectile(3), Contact::Other), None);
}

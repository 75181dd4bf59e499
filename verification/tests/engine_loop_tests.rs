//! A small end-to-end run: decision cycles, energy decay, culling and
//! repopulation working together on a handful of stationary agents.

use ava::colony::{AgentSense, Colony};
use ava::config::{ENERGY_DECAY_RATE_MILLI, MAX_ENERGY_MILLI, NUM_CELLS};
use ava::forage::build_index;
use ava::ledger::EnergyMap;
use ava::net::Net;
use ava::net::standard_widths;
use ava::window::FitnessScores;

fn seeded_colony(n: u32) -> Colony {
    let mut c = Colony::new();
    for i in 0..n {
        c.agents.push(ava::colony::Agent {
            id: i + 1,
            birth_x_milli: 0,
            birth_y_milli: 0,
            birth_ms: 0,
            last_update_ms: 0,
            last_fired_ms: 0,
            phase_offset_milli: 0,
            offspring: 0,
            net: Net::new(standard_widths()),
            scores: FitnessScores::new(),
        });
    }
    c.next_id = n;
    c
}

#[test]
fn stationary_agents_decay_and_are_culled_within_their_window() {
    let mut colony = seeded_colony(6);
    let mut ledger = EnergyMap::new();
    let idx = build_index(vec![(50_000, 0), (-80_000, 30_000)]);

    let mut now: u64 = 0;
    let mut next_energy: u64 = 1_000;
    let mut next_cull: u64 = 500;
    while now < 21_000 {
        now += 250;
        let heartbeat = now;

        // Decision cycles: everyone sits at the origin.
        for k in 0..colony.population() {
            let sense = AgentSense { x_milli: 0, y_milli: 0, heading_millideg: 0 };
            if let Some(target) = colony.begin_cycle(k, sense, &idx, heartbeat, now) {
                let bearing = ((target.1 as f64).atan2(target.0 as f64).to_degrees() * 1000.0)
                    as i64;
                let out = colony.finish_cycle(k, sense, target, bearing, now);
                assert!(0 <= out.fitness_milli && out.fitness_milli <= 4_000);
            }
        }

        if now >= next_energy {
            next_energy += 1_000;
            let pairs = colony.fitness_pairs();
            ledger.decay_cycle(&pairs, ENERGY_DECAY_RATE_MILLI, now);
            for (id, _) in pairs {
                let e = ledger.get_energy(id);
                assert!(e.is_some());
                assert!(e.unwrap() <= MAX_ENERGY_MILLI);
            }
        }

        if now >= next_cull {
            next_cull += 500;
            let senses = vec![
                AgentSense { x_milli: 0, y_milli: 0, heading_millideg: 0 };
                colony.population()
            ];
            let flags = colony.cull_flags(&ledger, &senses, now);
            colony.remove_culled(&mut ledger, &flags);
            colony.penalize_inactive(&mut ledger, now);
        }

        assert!(colony.population() <= NUM_CELLS);
    }

    // Sitting on the birthplace, every agent falls to the unmoving rule
    // inside [10 s, 20 s) — if its energy did not run out first.
    assert_eq!(colony.population(), 0);

    // A collapsed population triggers a full reseed on the next check.
    let orders = colony.reseed(now);
    assert_eq!(orders.len(), NUM_CELLS);
    assert_eq!(colony.population(), NUM_CELLS);
}

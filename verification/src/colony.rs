//! The colony: the registry of living agents and the passes that run over
//! it each tick — the decision cycle, culling, reproduction and
//! repopulation.
//!
//! Physics, rendering and the clock belong to outside collaborators: they
//! hand each pass plain values (positions, headings, timestamps) and take
//! plain orders back (actions, projectile and agent spawn requests,
//! removals).  The bearing toward a target is trigonometry on the
//! collaborator's side as well: a cycle is begun to pick the target and
//! finished once the bearing for it is known.

use vstd::prelude::*;

use crate::arith::spec_max;
use crate::config::{
    FIRE_COOLDOWN_MS, INACTIVITY_AGE_MS, INACTIVITY_PENALTY_MILLI, MAX_ENERGY_MILLI,
    MAX_FITNESS_MILLI, MUTATION_VARIATION_MILLI, NUM_CELLS, NUM_INPUT_NODES, NUM_OUTPUT_NODES,
    PROJECTILE_LIFESPAN_MS, REPRO_DRAW_SCALE, SHOOT_THRESHOLD_MILLI, THRUST_THRESHOLD_MILLI,
    UPDATE_INTERVAL_MS, WORLD_H_MILLI, WORLD_W_MILLI,
};
use crate::cull::{cull_decision, spec_cull_decision};
use crate::forage::{coord_ok, index_points, nearest_or_origin, target_valid, ForageIndex};
use crate::ledger::{penalize_one, EnergyMap};
use crate::net::{forward, ints_of, ints_of_all, params_fresh, standard_widths, Net};
use crate::rng::{rand_below, rand_range_i64};
use crate::sense::{
    calc_fitness, cooldown_over, decide_action, norm_angle, norm_distance, should_update,
    spec_fitness_sample, spec_norm_angle, spec_norm_distance, CellAction,
};
use crate::window::{
    lemma_mean_in_range, lemma_pushed_bounded, pushed, samples_bounded, spec_fitness,
    FitnessScores,
};

verus! {

/// One living agent: identity, birth record, timers, controller and
/// fitness history.  Its position and orientation live with the physics
/// collaborator and are looked up by id.
pub struct Agent {
    /// Unique id, never reused.
    pub id: u32,
    /// Birthplace, milli-units.
    pub birth_x_milli: i64,
    /// Birthplace, milli-units.
    pub birth_y_milli: i64,
    /// Clock reading at birth.
    pub birth_ms: u64,
    /// Clock reading of the last decision cycle.
    pub last_update_ms: u64,
    /// Clock reading of the last projectile fired.
    pub last_fired_ms: u64,
    /// Fixed random fraction of a second, in milli, staggering this
    /// agent's decisions against the shared heartbeat.
    pub phase_offset_milli: u64,
    /// How many offspring this agent has produced.
    pub offspring: u32,
    /// The agent's controller, owned exclusively.
    pub net: Net,
    /// The rolling fitness window.
    pub scores: FitnessScores,
}

/// What the physics collaborator reports about one agent this tick.
#[derive(Clone, Copy)]
pub struct AgentSense {
    /// Position, milli-units.
    pub x_milli: i64,
    /// Position, milli-units.
    pub y_milli: i64,
    /// Orientation, milli-degrees in `[-360 000, 360 000)`.
    pub heading_millideg: i64,
}

/// What one finished decision cycle tells the collaborator to do.
pub struct CycleOut {
    /// The decided action: spin, thrust, raw shoot desire.
    pub action: CellAction,
    /// Whether a projectile actually launches (shoot gated by cooldown).
    pub fire: bool,
    /// The heuristic fitness sample recorded for this cycle.
    pub fitness_milli: i64,
}

/// A request to create one agent entity, handed to the spawn collaborator.
pub struct SpawnOrder {
    /// The id of the new agent.
    pub id: u32,
    /// The id of the parent, or the new agent's own id for a seeded one.
    pub parent_id: u32,
    /// Spawn position, milli-units.
    pub x_milli: i64,
    /// Spawn position, milli-units.
    pub y_milli: i64,
}

/// A well-formed agent: a valid controller of the engine's in/out widths,
/// a valid window, a sub-second phase offset and a bounded birthplace.
pub open spec fn agent_wf(a: Agent) -> bool {
    &&& a.net.wf()
    &&& a.net.widths@[0] == NUM_INPUT_NODES
    &&& a.net.widths@[a.net.widths@.len() - 1] == NUM_OUTPUT_NODES
    &&& a.scores.wf()
    &&& samples_bounded(a.scores@, MAX_FITNESS_MILLI as int)
    &&& a.phase_offset_milli < 1_000
    &&& -100_000_000 <= a.birth_x_milli <= 100_000_000
    &&& -100_000_000 <= a.birth_y_milli <= 100_000_000
}

/// Agent ids are pairwise distinct.
pub open spec fn distinct_ids(s: Seq<Agent>) -> bool {
    forall|i: int, j: int| 0 <= i < j < s.len() ==> #[trigger] s[i].id != #[trigger] s[j].id
}

/// Whether an agent is due for a decision cycle at `now`: its own interval
/// has elapsed and the shared heartbeat has passed its phase offset.
pub open spec fn cycle_due(a: Agent, heartbeat_ms: u64, now_ms: u64) -> bool {
    &&& now_ms - a.last_update_ms >= UPDATE_INTERVAL_MS
    &&& now_ms - heartbeat_ms >= a.phase_offset_milli
}

/// The controller's output layer on the three normalized sense signals.
pub open spec fn spec_outputs(net: Net, dist: int, bearing: int, heading: int) -> Seq<int> {
    forward(net.layers@, seq![dist, bearing, heading]).last()
}

/// The registry of living agents, arena-style, with the id counter.
pub struct Colony {
    /// The living agents, in insertion order.
    pub agents: Vec<Agent>,
    /// The last id handed out; ids only grow and are never reused.
    pub next_id: u32,
}

impl Colony {
    /// Every agent is well formed, ids are distinct and never ahead of the
    /// counter.
    pub open spec fn wf(&self) -> bool {
        &&& forall|k: int| 0 <= k < self.agents@.len() ==> agent_wf(#[trigger] self.agents@[k])
        &&& distinct_ids(self.agents@)
        &&& forall|k: int| 0 <= k < self.agents@.len() ==> (#[trigger] self.agents@[k]).id
            <= self.next_id
    }

    /// An empty colony.
    pub fn new() -> (r: Colony)
        ensures
            r.wf(),
            r.agents@.len() == 0,
            r.next_id == 0,
    {
        Colony { agents: Vec::new(), next_id: 0 }
    }

    /// How many agents live.
    pub fn population(&self) -> (r: usize)
        ensures
            r == self.agents@.len(),
    {
        self.agents.len()
    }

    /// Begin agent `k`'s decision cycle: if the agent is due, stamp its
    /// update time and pick its target — the nearest indexed food, or the
    /// origin when none is indexed.  Returns `None`, changing nothing,
    /// when the agent is not due.
    pub fn begin_cycle(
        &mut self,
        k: usize,
        sense: AgentSense,
        idx: &ForageIndex,
        heartbeat_ms: u64,
        now_ms: u64,
    ) -> (r: Option<(i64, i64)>)
        requires
            old(self).wf(),
            k < old(self).agents@.len(),
            -100_000_000 <= sense.x_milli <= 100_000_000,
            -100_000_000 <= sense.y_milli <= 100_000_000,
            old(self).agents@[k as int].last_update_ms <= now_ms,
            heartbeat_ms <= now_ms,
            forall|p: (i64, i64)| index_points(*idx).contains(p) ==> coord_ok(p),
        ensures
            final(self).wf(),
            final(self).next_id == old(self).next_id,
            final(self).agents@.len() == old(self).agents@.len(),
            match r {
                None => !cycle_due(old(self).agents@[k as int], heartbeat_ms, now_ms)
                    && final(self).agents@ == old(self).agents@,
                Some(t) => cycle_due(old(self).agents@[k as int], heartbeat_ms, now_ms)
                    && target_valid(
                    index_points(*idx),
                    (sense.x_milli, sense.y_milli),
                    t,
                ) && coord_ok(t) && final(self).agents@ == old(self).agents@.update(
                    k as int,
                    Agent { last_update_ms: now_ms, ..old(self).agents@[k as int] },
                ),
            },
    {
        let due = should_update(
            self.agents[k].last_update_ms,
            heartbeat_ms,
            self.agents[k].phase_offset_milli,
            now_ms,
        );
        if !due {
            proof {
                assert(final(self).agents@ =~= old(self).agents@);
            }
            return None;
        }
        self.agents[k].last_update_ms = now_ms;
        let t = nearest_or_origin(idx, sense.x_milli, sense.y_milli);
        proof {
            assert(final(self).agents@ =~= old(self).agents@.update(
                k as int,
                Agent { last_update_ms: now_ms, ..old(self).agents@[k as int] },
            ));
        }
        Some(t)
    }

    /// Finish agent `k`'s decision cycle once the collaborator has turned
    /// the chosen target into a bearing: normalize the three sense
    /// signals, run the controller, decide the action, gate firing by the
    /// cooldown, and record the cycle's fitness sample.
    #[verifier::rlimit(60)]
    #[verifier::spinoff_prover]
    pub fn finish_cycle(
        &mut self,
        k: usize,
        sense: AgentSense,
        target: (i64, i64),
        bearing_millideg: i64,
        now_ms: u64,
    ) -> (r: CycleOut)
        requires
            old(self).wf(),
            k < old(self).agents@.len(),
            -100_000_000 <= sense.x_milli <= 100_000_000,
            -100_000_000 <= sense.y_milli <= 100_000_000,
            -360_000 <= sense.heading_millideg < 360_000,
            coord_ok(target),
            -360_000 <= bearing_millideg < 360_000,
            old(self).agents@[k as int].last_fired_ms <= now_ms,
        ensures
            final(self).wf(),
            final(self).next_id == old(self).next_id,
            final(self).agents@.len() == old(self).agents@.len(),
            ({
                let a = old(self).agents@[k as int];
                let dist = spec_norm_distance(
                    target.0 - sense.x_milli,
                    target.1 - sense.y_milli,
                );
                let bearing = spec_norm_angle(bearing_millideg as int);
                let heading = spec_norm_angle(sense.heading_millideg as int);
                let outs = spec_outputs(a.net, dist, bearing, heading);
                &&& r.action.spin_left == (outs[0] > outs[1])
                &&& r.action.spin_right == (outs[1] > outs[0])
                &&& r.action.thrust == (outs[2] >= THRUST_THRESHOLD_MILLI)
                &&& r.action.shoot == (outs[3] >= SHOOT_THRESHOLD_MILLI)
                &&& r.fire == (r.action.shoot && now_ms - a.last_fired_ms >= FIRE_COOLDOWN_MS)
                &&& r.fitness_milli == spec_fitness_sample(
                    dist,
                    bearing,
                    heading,
                    outs[0],
                    outs[1],
                    outs[2],
                    outs[3],
                )
                &&& final(self).agents@ == old(self).agents@.update(
                    k as int,
                    Agent {
                        last_fired_ms: if r.fire {
                            now_ms
                        } else {
                            a.last_fired_ms
                        },
                        scores: final(self).agents@[k as int].scores,
                        ..a
                    },
                )
                &&& final(self).agents@[k as int].scores@ == pushed(a.scores@, r.fitness_milli)
            }),
    {
        let a_x = sense.x_milli;
        let a_y = sense.y_milli;
        let dist = norm_distance(target.0 - a_x, target.1 - a_y);
        let bearing = norm_angle(bearing_millideg);
        let heading = norm_angle(sense.heading_millideg);
        let mut input: Vec<i64> = Vec::new();
        input.push(dist);
        input.push(bearing);
        input.push(heading);
        proof {
            assert(ints_of(input@) =~= seq![dist as int, bearing as int, heading as int]);
        }
        let acts = self.agents[k].net.predict(&input);
        let outputs = &acts[acts.len() - 1];
        proof {
            let net = self.agents@[k as int].net;
            assert(ints_of_all(acts@)[acts@.len() - 1] == ints_of(outputs@));
            assert(ints_of(outputs@) == spec_outputs(
                net,
                dist as int,
                bearing as int,
                heading as int,
            ));
            assert(outputs@.len() == net.widths@[net.widths@.len() - 1]);
            assert(ints_of(outputs@)[0] == outputs@[0] as int);
            assert(ints_of(outputs@)[1] == outputs@[1] as int);
            assert(ints_of(outputs@)[2] == outputs@[2] as int);
            assert(ints_of(outputs@)[3] == outputs@[3] as int);
        }
        let action = decide_action(outputs);
        let fire = action.shoot && cooldown_over(self.agents[k].last_fired_ms, now_ms);
        let fitness = calc_fitness(dist, bearing, heading, outputs);
        if fire {
            self.agents[k].last_fired_ms = now_ms;
        }
        proof {
            lemma_pushed_bounded(
                self.agents@[k as int].scores@,
                fitness,
                MAX_FITNESS_MILLI as int,
            );
        }
        self.agents[k].scores.push(fitness);
        proof {
            assert(final(self).agents@ =~= old(self).agents@.update(
                k as int,
                Agent {
                    last_fired_ms: if fire {
                        now_ms
                    } else {
                        old(self).agents@[k as int].last_fired_ms
                    },
                    scores: final(self).agents@[k as int].scores,
                    ..old(self).agents@[k as int]
                },
            ));
        }
        CycleOut { action, fire, fitness_milli: fitness }
    }

    /// The `(id, current fitness)` of every living agent, for the energy
    /// economy's decay cycle.
    pub fn fitness_pairs(&self) -> (r: Vec<(u32, i64)>)
        requires
            self.wf(),
        ensures
            r@.len() == self.agents@.len(),
            forall|k: int|
                0 <= k < r@.len() ==> #[trigger] r@[k] == (
                    self.agents@[k].id,
                    spec_fitness(self.agents@[k].scores@) as i64,
                ),
            forall|k: int| 0 <= k < r@.len() ==> 0 <= (#[trigger] r@[k]).1 <= MAX_FITNESS_MILLI,
    {
        let n = self.agents.len();
        let mut r: Vec<(u32, i64)> = Vec::new();
        let mut k: usize = 0;
        while k < n
            invariant
                self.wf(),
                n == self.agents@.len(),
                k <= n,
                r@.len() == k,
                forall|j: int|
                    0 <= j < k ==> #[trigger] r@[j] == (
                        self.agents@[j].id,
                        spec_fitness(self.agents@[j].scores@) as i64,
                    ),
                forall|j: int|
                    0 <= j < k ==> 0 <= (#[trigger] r@[j]).1 <= MAX_FITNESS_MILLI,
            decreases n - k,
        {
            let f = self.agents[k].scores.get_fitness();
            proof {
                if self.agents@[k as int].scores@.len() > 0 {
                    lemma_mean_in_range(
                        self.agents@[k as int].scores@,
                        MAX_FITNESS_MILLI as int,
                    );
                }
            }
            r.push((self.agents[k].id, f));
            k = k + 1;
        }
        r
    }
}

/// The ledger's energy reading for an agent, if it has an entry.
pub open spec fn energy_of(m: Map<u32, (i64, u64)>, id: u32) -> Option<i64> {
    if m.dom().contains(id) {
        Some(m[id].0)
    } else {
        None
    }
}

/// Saturating increment of an offspring counter.
pub open spec fn inc_saturating(o: u32) -> u32 {
    if o < u32::MAX {
        (o + 1) as u32
    } else {
        o
    }
}

/// Whether some order names `id` as its parent.
pub open spec fn has_parent_order(orders: Seq<SpawnOrder>, id: u32) -> bool {
    exists|j: int| 0 <= j < orders.len() && (#[trigger] orders[j]).parent_id == id
}

/// `id` holds the population-wide maximum ledger energy, and it is
/// positive.  For such an agent the reproduction draw always succeeds, so
/// an order is owed whenever the cap does not intervene.
pub open spec fn tops_ledger(m: Map<u32, (i64, u64)>, id: u32) -> bool {
    &&& m.dom().contains(id)
    &&& m[id].0 > 0
    &&& forall|o: u32| #[trigger] m.dom().contains(o) ==> m[o].0 <= m[id].0
}

/// The agents that survive a flag vector (`true` marks removal), in order.
pub open spec fn keep_agents(agents: Seq<Agent>, flags: Seq<bool>) -> Seq<Agent>
    decreases agents.len(),
{
    if agents.len() == 0 || flags.len() == 0 {
        Seq::empty()
    } else if flags.first() {
        keep_agents(agents.drop_first(), flags.drop_first())
    } else {
        seq![agents.first()] + keep_agents(agents.drop_first(), flags.drop_first())
    }
}

/// The ids removed by a flag vector, in order.
pub open spec fn flagged_ids(agents: Seq<Agent>, flags: Seq<bool>) -> Seq<u32>
    decreases agents.len(),
{
    if agents.len() == 0 || flags.len() == 0 {
        Seq::empty()
    } else if flags.first() {
        seq![agents.first().id] + flagged_ids(agents.drop_first(), flags.drop_first())
    } else {
        flagged_ids(agents.drop_first(), flags.drop_first())
    }
}

/// The mapping after removing a list of ids, first to last.
pub open spec fn remove_ids(m: Map<u32, (i64, u64)>, ids: Seq<u32>) -> Map<u32, (i64, u64)>
    decreases ids.len(),
{
    if ids.len() == 0 {
        m
    } else {
        remove_ids(m.remove(ids.first()), ids.drop_first())
    }
}

/// The ids of agents that have not fired for the inactivity threshold.
pub open spec fn inactive_ids(agents: Seq<Agent>, now_ms: u64) -> Seq<u32>
    decreases agents.len(),
{
    if agents.len() == 0 {
        Seq::empty()
    } else if now_ms - agents.first().last_fired_ms >= INACTIVITY_AGE_MS {
        seq![agents.first().id] + inactive_ids(agents.drop_first(), now_ms)
    } else {
        inactive_ids(agents.drop_first(), now_ms)
    }
}

/// The mapping after the inactivity penalty is charged to a list of ids.
pub open spec fn penalize_ids(
    m: Map<u32, (i64, u64)>,
    ids: Seq<u32>,
    now_ms: u64,
) -> Map<u32, (i64, u64)>
    decreases ids.len(),
{
    if ids.len() == 0 {
        m
    } else {
        penalize_ids(
            penalize_one(m, ids.first(), INACTIVITY_PENALTY_MILLI as int, now_ms),
            ids.drop_first(),
            now_ms,
        )
    }
}

impl Colony {
    /// Evaluate the culling rules for every agent against the ledger and
    /// the reported positions; `true` marks an agent for removal.
    pub fn cull_flags(
        &self,
        ledger: &EnergyMap,
        senses: &Vec<AgentSense>,
        now_ms: u64,
    ) -> (r: Vec<bool>)
        requires
            self.wf(),
            ledger.wf(),
            senses@.len() == self.agents@.len(),
            forall|k: int|
                0 <= k < senses@.len() ==> -100_000_000 <= (#[trigger] senses@[k]).x_milli
                    <= 100_000_000 && -100_000_000 <= senses@[k].y_milli <= 100_000_000,
            forall|k: int|
                0 <= k < self.agents@.len() ==> (#[trigger] self.agents@[k]).birth_ms <= now_ms,
        ensures
            r@.len() == self.agents@.len(),
            forall|k: int|
                0 <= k < r@.len() ==> #[trigger] r@[k] == (spec_cull_decision(
                    energy_of(ledger@, self.agents@[k].id),
                    (now_ms - self.agents@[k].birth_ms) as u64,
                    senses@[k].x_milli - self.agents@[k].birth_x_milli,
                    senses@[k].y_milli - self.agents@[k].birth_y_milli,
                ) is Some),
    {
        let n = self.agents.len();
        let mut r: Vec<bool> = Vec::new();
        let mut k: usize = 0;
        while k < n
            invariant
                self.wf(),
                ledger.wf(),
                n == self.agents@.len(),
                senses@.len() == n,
                forall|j: int|
                    0 <= j < n ==> -100_000_000 <= (#[trigger] senses@[j]).x_milli
                        <= 100_000_000 && -100_000_000 <= senses@[j].y_milli <= 100_000_000,
                forall|j: int|
                    0 <= j < n ==> (#[trigger] self.agents@[j]).birth_ms <= now_ms,
                k <= n,
                r@.len() == k,
                forall|j: int|
                    0 <= j < k ==> #[trigger] r@[j] == (spec_cull_decision(
                        energy_of(ledger@, self.agents@[j].id),
                        (now_ms - self.agents@[j].birth_ms) as u64,
                        senses@[j].x_milli - self.agents@[j].birth_x_milli,
                        senses@[j].y_milli - self.agents@[j].birth_y_milli,
                    ) is Some),
            decreases n - k,
        {
            let energy = ledger.get_energy(self.agents[k].id);
            let age = now_ms - self.agents[k].birth_ms;
            let dx = senses[k].x_milli - self.agents[k].birth_x_milli;
            let dy = senses[k].y_milli - self.agents[k].birth_y_milli;
            let decision = cull_decision(energy, age, dx, dy);
            r.push(decision.is_some());
            k = k + 1;
        }
        r
    }

    /// Remove every flagged agent and its ledger entry; survivors keep
    /// their order.  Returns the removed ids, in order.
    #[verifier::rlimit(60)]
    #[verifier::spinoff_prover]
    pub fn remove_culled(&mut self, ledger: &mut EnergyMap, flags: &Vec<bool>) -> (removed: Vec<
        u32,
    >)
        requires
            old(self).wf(),
            old(ledger).wf(),
            flags@.len() == old(self).agents@.len(),
        ensures
            final(self).wf(),
            final(ledger).wf(),
            final(self).next_id == old(self).next_id,
            final(self).agents@ == keep_agents(old(self).agents@, flags@),
            removed@ == flagged_ids(old(self).agents@, flags@),
            final(ledger)@ == remove_ids(old(ledger)@, flagged_ids(old(self).agents@, flags@)),
    {
        let ghost orig = self.agents@;
        let ghost target_kept = keep_agents(orig, flags@);
        let ghost target_removed = flagged_ids(orig, flags@);
        let ghost target_ledger = remove_ids(old(ledger)@, target_removed);
        let n = self.agents.len();
        let mut source: Vec<Agent> = Vec::new();
        std::mem::swap(&mut source, &mut self.agents);
        proof {
            assert(orig.subrange(0, n as int) =~= orig);
        }
        let mut stack: Vec<Agent> = Vec::new();
        while source.len() > 0
            invariant
                n == orig.len(),
                stack@.len() + source@.len() == n,
                source@ == orig.subrange(0, source@.len() as int),
                forall|j: int| 0 <= j < stack@.len() ==> #[trigger] stack@[j] == orig[n - 1 - j],
            decreases source@.len(),
        {
            let ghost pre_len = source@.len() as int;
            let a = source.pop().unwrap();
            proof {
                assert(a == orig[pre_len - 1]);
                assert(source@ =~= orig.subrange(0, pre_len - 1));
            }
            stack.push(a);
        }
        let mut kept: Vec<Agent> = Vec::new();
        let mut removed: Vec<u32> = Vec::new();
        let mut i: usize = 0;
        proof {
            assert(orig.skip(0) =~= orig);
            assert(flags@.skip(0) =~= flags@);
        }
        while i < n
            invariant
                old(self).wf(),
                n == orig.len(),
                orig == old(self).agents@,
                flags@.len() == n,
                i <= n,
                stack@.len() == n - i,
                forall|j: int| 0 <= j < stack@.len() ==> #[trigger] stack@[j] == orig[n - 1 - j],
                kept@ + keep_agents(orig.skip(i as int), flags@.skip(i as int)) == target_kept,
                removed@ + flagged_ids(orig.skip(i as int), flags@.skip(i as int))
                    == target_removed,
                remove_ids(ledger@, flagged_ids(orig.skip(i as int), flags@.skip(i as int)))
                    == target_ledger,
                ledger.wf(),
                agents_from(kept@, orig, i as int),
                distinct_ids(kept@),
            decreases n - i,
        {
            let ghost rest = orig.skip(i as int);
            let ghost frest = flags@.skip(i as int);
            let ghost kept_pre = kept@;
            let ghost removed_pre = removed@;
            proof {
                assert(rest.first() == orig[i as int]);
                assert(rest.drop_first() =~= orig.skip(i + 1));
                assert(frest.first() == flags@[i as int]);
                assert(frest.drop_first() =~= flags@.skip(i + 1));
            }
            let a = stack.pop().unwrap();
            proof {
                assert(a == orig[i as int]);
            }
            if flags[i] {
                proof {
                    assert(flagged_ids(rest, frest) == seq![a.id] + flagged_ids(
                        orig.skip(i + 1),
                        flags@.skip(i + 1),
                    ));
                    assert(keep_agents(rest, frest) == keep_agents(
                        orig.skip(i + 1),
                        flags@.skip(i + 1),
                    ));
                    assert(flagged_ids(rest, frest).first() == a.id);
                    assert(flagged_ids(rest, frest).drop_first() =~= flagged_ids(
                        orig.skip(i + 1),
                        flags@.skip(i + 1),
                    ));
                }
                ledger.remove_entry(a.id);
                removed.push(a.id);
                proof {
                    assert(removed@ + flagged_ids(orig.skip(i + 1), flags@.skip(i + 1))
                        =~= removed_pre + flagged_ids(rest, frest));
                }
            } else {
                proof {
                    assert(flagged_ids(rest, frest) == flagged_ids(
                        orig.skip(i + 1),
                        flags@.skip(i + 1),
                    ));
                    assert(keep_agents(rest, frest) == seq![a] + keep_agents(
                        orig.skip(i + 1),
                        flags@.skip(i + 1),
                    ));
                    if has_agent_id(kept@, a.id) {
                        let j = choose|j: int|
                            0 <= j < kept@.len() && #[trigger] kept@[j].id == a.id;
                        let k = choose|k: int| 0 <= k < i && #[trigger] kept@[j] == orig[k];
                        assert(orig[k].id == orig[i as int].id);
                        assert(false);
                    }
                }
                kept.push(a);
                proof {
                    assert(kept@ + keep_agents(orig.skip(i + 1), flags@.skip(i + 1)) =~= kept_pre
                        + keep_agents(rest, frest));
                    assert(agents_from(kept@, orig, i + 1)) by {
                        assert forall|j: int| 0 <= j < kept@.len() implies exists|k: int|
                            0 <= k < i + 1 && #[trigger] kept@[j] == orig[k] by {
                            if j < kept_pre.len() {
                                let k = choose|k: int|
                                    0 <= k < i && #[trigger] kept_pre[j] == orig[k];
                                assert(kept@[j] == orig[k]);
                            } else {
                                assert(kept@[j] == orig[i as int]);
                            }
                        }
                    }
                    assert(distinct_ids(kept@)) by {
                        assert forall|x: int, y: int| 0 <= x < y < kept@.len()
                            implies #[trigger] kept@[x].id != #[trigger] kept@[y].id by {
                            if y < kept_pre.len() {
                                assert(kept_pre[x].id != kept_pre[y].id);
                            } else {
                                assert(kept@[y].id == a.id);
                                assert(kept@[x].id == kept_pre[x].id);
                                assert(!has_agent_id(kept_pre, a.id));
                            }
                        }
                    }
                }
            }
            i = i + 1;
        }
        proof {
            assert(orig.skip(n as int) =~= Seq::<Agent>::empty());
            assert(flags@.skip(n as int) =~= Seq::<bool>::empty());
            assert(kept@ + Seq::<Agent>::empty() =~= kept@);
            assert(removed@ + Seq::<u32>::empty() =~= removed@);
        }
        self.agents = kept;
        proof {
            assert forall|k: int| 0 <= k < self.agents@.len() implies agent_wf(
                #[trigger] self.agents@[k],
            ) && self.agents@[k].id <= self.next_id by {
                let j = choose|j: int| 0 <= j < n && #[trigger] self.agents@[k] == orig[j];
                assert(agent_wf(orig[j]));
            }
        }
                removed
    }

    /// Charge the inactivity penalty to every agent that has not fired for
    /// the inactivity threshold.  Run after removal, so only survivors pay.
    pub fn penalize_inactive(&self, ledger: &mut EnergyMap, now_ms: u64)
        requires
            self.wf(),
            old(ledger).wf(),
        ensures
            final(ledger).wf(),
            final(ledger)@ == penalize_ids(old(ledger)@, inactive_ids(self.agents@, now_ms), now_ms),
    {
        let ghost target = penalize_ids(old(ledger)@, inactive_ids(self.agents@, now_ms), now_ms);
        proof {
            assert(self.agents@.skip(0) =~= self.agents@);
        }
        let n = self.agents.len();
        let mut k: usize = 0;
        while k < n
            invariant
                self.wf(),
                ledger.wf(),
                n == self.agents@.len(),
                k <= n,
                penalize_ids(ledger@, inactive_ids(self.agents@.skip(k as int), now_ms), now_ms)
                    == target,
            decreases n - k,
        {
            let ghost rest = self.agents@.skip(k as int);
            proof {
                assert(rest.first() == self.agents@[k as int]);
                assert(rest.drop_first() =~= self.agents@.skip(k + 1));
            }
            let a_last = self.agents[k].last_fired_ms;
            let inactive = if a_last >= now_ms {
                false
            } else {
                now_ms - a_last >= INACTIVITY_AGE_MS
            };
            if inactive {
                proof {
                    assert(inactive_ids(rest, now_ms) == seq![rest.first().id] + inactive_ids(
                        rest.drop_first(),
                        now_ms,
                    ));
                    assert(inactive_ids(rest, now_ms).first() == self.agents@[k as int].id);
                    assert(inactive_ids(rest, now_ms).drop_first() =~= inactive_ids(
                        self.agents@.skip(k + 1),
                        now_ms,
                    ));
                }
                ledger.penalize(self.agents[k].id, INACTIVITY_PENALTY_MILLI, now_ms);
            } else {
                proof {
                    assert(inactive_ids(rest, now_ms) =~= inactive_ids(
                        self.agents@.skip(k + 1),
                        now_ms,
                    ));
                }
            }
            k = k + 1;
        }
        proof {
            assert(self.agents@.skip(n as int) =~= Seq::<Agent>::empty());
        }
    }
}

/// One side of a reported collision pair, as the physics collaborator
/// tags it: a projectile carrying its owner's id, a food item, or
/// anything else.
#[derive(Clone, Copy, Debug, PartialEq, Eq, Structural)]
pub enum Contact {
    /// A projectile, tagged with the id of the agent that fired it.
    Projectile(u32),
    /// A food item.
    Food,
    /// Any other entity.
    Other,
}

/// Who is credited for a collision pair: the projectile's owner, exactly
/// when one member is a projectile and the other is food; any other pair
/// is ignored.
pub open spec fn spec_resolve_hit(a: Contact, b: Contact) -> Option<u32> {
    match (a, b) {
        (Contact::Projectile(owner), Contact::Food) => Some(owner),
        (Contact::Food, Contact::Projectile(owner)) => Some(owner),
        _ => None,
    }
}

/// Whether a projectile born at `born_ms` has outlived its lifespan at
/// `now_ms`; an expired projectile is despawned and its owner pays the
/// miss penalty.
pub fn projectile_expired(born_ms: u64, now_ms: u64) -> (r: bool)
    requires
        born_ms <= now_ms,
    ensures
        r == (now_ms - born_ms >= PROJECTILE_LIFESPAN_MS),
{
    now_ms - born_ms >= PROJECTILE_LIFESPAN_MS
}

/// Classify an unordered collision pair: `Some(owner)` exactly when a
/// projectile of `owner` hit food; the caller then despawns both and
/// credits the owner.
pub fn resolve_hit(a: Contact, b: Contact) -> (r: Option<u32>)
    ensures
        r == spec_resolve_hit(a, b),
{
    match (a, b) {
        (Contact::Projectile(owner), Contact::Food) => Some(owner),
        (Contact::Food, Contact::Projectile(owner)) => Some(owner),
        _ => None,
    }
}

impl Colony {
    /// The reproduction pass.  The population is counted once; each agent
    /// with a ledger entry and positive energy reproduces with probability
    /// equal to its energy relative to the population-wide maximum, as
    /// long as the count stays under the cap.  An offspring gets a fresh
    /// id, the parent's controller deep-copied and mutated once, and a
    /// uniformly random position in the world.
    #[verifier::rlimit(100)]
    #[verifier::spinoff_prover]
    pub fn reproduce(&mut self, ledger: &EnergyMap, now_ms: u64) -> (orders: Vec<SpawnOrder>)
        requires
            old(self).wf(),
            ledger.wf(),
            old(self).next_id + old(self).agents@.len() <= u32::MAX,
        ensures
            final(self).wf(),
            final(self).agents@.len() == old(self).agents@.len() + orders@.len(),
            final(self).next_id == old(self).next_id + orders@.len(),
            old(self).agents@.len() >= NUM_CELLS ==> orders@.len() == 0,
            final(self).agents@.len() <= spec_max(
                old(self).agents@.len() as int,
                NUM_CELLS as int,
            ),
            forall|j: int|
                0 <= j < old(self).agents@.len() ==> #[trigger] final(self).agents@[j] == (Agent {
                    offspring: final(self).agents@[j].offspring,
                    ..old(self).agents@[j]
                }),
            forall|j: int|
                0 <= j < old(self).agents@.len() ==> (#[trigger] final(self).agents@[
                    j]).offspring == (if has_parent_order(orders@, old(self).agents@[j].id) {
                    inc_saturating(old(self).agents@[j].offspring)
                } else {
                    old(self).agents@[j].offspring
                }),
            forall|j: int|
                0 <= j < orders@.len() ==> ledger@.dom().contains(
                    (#[trigger] orders@[j]).parent_id,
                ) && ledger@[orders@[j].parent_id].0 > 0,
            old(self).agents@.len() + orders@.len() < NUM_CELLS ==> forall|k: int|
                0 <= k < old(self).agents@.len() && tops_ledger(
                    ledger@,
                    (#[trigger] old(self).agents@[k]).id,
                ) ==> has_parent_order(orders@, old(self).agents@[k].id),
            forall|j: int|
                0 <= j < orders@.len() ==> #[trigger] orders@[j].id == old(self).next_id + 1 + j,
            forall|j: int|
                0 <= j < orders@.len() ==> ({
                    let child = final(self).agents@[old(self).agents@.len() + j];
                    &&& child.id == (#[trigger] orders@[j]).id
                    &&& child.birth_x_milli == orders@[j].x_milli
                    &&& child.birth_y_milli == orders@[j].y_milli
                    &&& -WORLD_W_MILLI / 2 <= orders@[j].x_milli < WORLD_W_MILLI / 2
                    &&& -WORLD_H_MILLI / 2 <= orders@[j].y_milli < WORLD_H_MILLI / 2
                    &&& child.birth_ms == now_ms
                    &&& child.last_update_ms == now_ms
                    &&& child.last_fired_ms == now_ms
                    &&& child.offspring == 0
                    &&& child.scores@ == Seq::<i64>::empty()
                    &&& exists|k: int|
                        0 <= k < old(self).agents@.len() && (#[trigger] old(self).agents@[
                            k]).id == orders@[j].parent_id && child.net.widths@ == old(
                            self,
                        ).agents@[k].net.widths@ && Net::params_within(
                            old(self).agents@[k].net,
                            child.net,
                            MUTATION_VARIATION_MILLI as int,
                        )
                }),
    {
        let old_len = self.agents.len();
        let max0 = ledger.max_energy();
        let mut orders: Vec<SpawnOrder> = Vec::new();
        let mut count = old_len;
        let mut k: usize = 0;
        while k < old_len
            invariant
                old(self).wf(),
                ledger.wf(),
                old(self).next_id + old_len <= u32::MAX,
                old_len == old(self).agents@.len(),
                k <= old_len,
                count == self.agents@.len(),
                self.agents@.len() == old_len + orders@.len(),
                self.next_id == old(self).next_id + orders@.len(),
                orders@.len() <= k,
                old_len >= NUM_CELLS ==> orders@.len() == 0,
                count <= spec_max(old_len as int, NUM_CELLS as int),
                match max0 {
                    Some(m) => (forall|id: u32| #[trigger] ledger@.dom().contains(id)
                        ==> ledger@[id].0 <= m) && m <= MAX_ENERGY_MILLI && (exists|id: u32|
                        #[trigger] ledger@.dom().contains(id) && ledger@[id].0 == m),
                    None => ledger@.dom() == Set::<u32>::empty(),
                },
                forall|j: int|
                    0 <= j < old_len ==> #[trigger] self.agents@[j] == (Agent {
                        offspring: self.agents@[j].offspring,
                        ..old(self).agents@[j]
                    }),
                forall|j: int|
                    0 <= j < k ==> (#[trigger] self.agents@[j]).offspring == (
                    if has_parent_order(orders@, old(self).agents@[j].id) {
                        inc_saturating(old(self).agents@[j].offspring)
                    } else {
                        old(self).agents@[j].offspring
                    }),
                forall|j: int|
                    k <= j < old_len ==> (#[trigger] self.agents@[j]).offspring == old(
                        self,
                    ).agents@[j].offspring,
                forall|j: int|
                    0 <= j < orders@.len() ==> exists|kk: int|
                        0 <= kk < k && (#[trigger] old(self).agents@[kk]).id == (
                        #[trigger] orders@[j]).parent_id,
                forall|j: int|
                    0 <= j < orders@.len() ==> ledger@.dom().contains(
                        (#[trigger] orders@[j]).parent_id,
                    ) && ledger@[orders@[j].parent_id].0 > 0,
                old_len + orders@.len() < NUM_CELLS ==> forall|kk: int|
                    0 <= kk < k && tops_ledger(ledger@, (#[trigger] old(self).agents@[kk]).id)
                        ==> has_parent_order(orders@, old(self).agents@[kk].id),
                forall|j: int|
                    0 <= j < orders@.len() ==> #[trigger] orders@[j].id == old(self).next_id + 1
                        + j,
                forall|j: int|
                    0 <= j < orders@.len() ==> ({
                        let child = self.agents@[old_len + j];
                        &&& child.id == (#[trigger] orders@[j]).id
                        &&& agent_wf(child)
                        &&& child.birth_x_milli == orders@[j].x_milli
                        &&& child.birth_y_milli == orders@[j].y_milli
                        &&& -WORLD_W_MILLI / 2 <= orders@[j].x_milli < WORLD_W_MILLI / 2
                        &&& -WORLD_H_MILLI / 2 <= orders@[j].y_milli < WORLD_H_MILLI / 2
                        &&& child.birth_ms == now_ms
                        &&& child.last_update_ms == now_ms
                        &&& child.last_fired_ms == now_ms
                        &&& child.offspring == 0
                        &&& child.scores@ == Seq::<i64>::empty()
                        &&& exists|kk: int|
                            0 <= kk < old_len && (#[trigger] old(self).agents@[kk]).id
                                == orders@[j].parent_id && child.net.widths@ == old(
                                self,
                            ).agents@[kk].net.widths@ && Net::params_within(
                                old(self).agents@[kk].net,
                                child.net,
                                MUTATION_VARIATION_MILLI as int,
                            )
                    }),
                forall|j: int|
                    0 <= j < self.agents@.len() ==> agent_wf(#[trigger] self.agents@[j]),
                distinct_ids(self.agents@),
                forall|j: int|
                    0 <= j < self.agents@.len() ==> (#[trigger] self.agents@[j]).id
                        <= self.next_id,
            decreases old_len - k,
        {
            let ghost idk = old(self).agents@[k as int].id;
            let mut spawned = false;
            if count < NUM_CELLS {
                match ledger.get_energy(self.agents[k].id) {
                    Some(v) => {
                        if v > 0 {
                            let max = match max0 {
                                Some(m) => m,
                                None => {
                                    proof {
                                        assert(false);
                                    }
                                    1
                                },
                            };
                            let u = rand_below(REPRO_DRAW_SCALE);
                            assert(0 <= (u as i64) * max < 4_000_000_000_000) by (
                            nonlinear_arith)
                                requires
                                    0 <= u < 1_000_000,
                                    0 < max <= 4_000_000,
                            ;
                            assert(0 < v * 1_000_000 <= 4_000_000_000_000) by (nonlinear_arith)
                                requires
                                    0 < v <= 4_000_000,
                            ;
                            if (u as i64) * max < v * 1_000_000 {
                                spawned = true;
                                let x = rand_range_i64(-WORLD_W_MILLI / 2, WORLD_W_MILLI / 2);
                                let y = rand_range_i64(-WORLD_H_MILLI / 2, WORLD_H_MILLI / 2);
                                let phase = rand_below(1_000);
                                let parent_id = self.agents[k].id;
                                let mut child_net = self.agents[k].net.duplicate();
                                let ghost dup0 = child_net;
                                child_net.mutate();
                                proof {
                                    lemma_same_params_transfers(
                                        self.agents@[k as int].net,
                                        dup0,
                                        child_net,
                                        MUTATION_VARIATION_MILLI as int,
                                    );
                                }
                                self.next_id = self.next_id + 1;
                                let id = self.next_id;
                                count = count + 1;
                                if self.agents[k].offspring < u32::MAX {
                                    let bumped = self.agents[k].offspring + 1;
                                    self.agents[k].offspring = bumped;
                                }
                                let ghost orders_pre = orders@;
                                orders.push(
                                    SpawnOrder { id, parent_id, x_milli: x, y_milli: y },
                                );
                                proof {
                                    assert(orders@ == orders_pre.push(
                                        SpawnOrder { id, parent_id, x_milli: x, y_milli: y },
                                    ));
                                    assert(has_parent_order(orders@, idk)) by {
                                        assert(orders@[orders@.len() - 1].parent_id == idk);
                                    }
                                    assert forall|j: int|
                                        0 <= j < k implies has_parent_order(
                                        orders@,
                                        old(self).agents@[j].id,
                                    ) == has_parent_order(orders_pre, old(self).agents@[j].id) by {
                                        let idj = old(self).agents@[j].id;
                                        assert(idj != idk);
                                        if has_parent_order(orders_pre, idj) {
                                            let w = choose|w: int|
                                                0 <= w < orders_pre.len() && (
                                                #[trigger] orders_pre[w]).parent_id == idj;
                                            assert(orders@[w].parent_id == idj);
                                        }
                                        if has_parent_order(orders@, idj) {
                                            let w = choose|w: int|
                                                0 <= w < orders@.len() && (
                                                #[trigger] orders@[w]).parent_id == idj;
                                            assert(w < orders_pre.len());
                                            assert(orders_pre[w].parent_id == idj);
                                        }
                                    }
                                }
                                let child = Agent {
                                    id,
                                    birth_x_milli: x,
                                    birth_y_milli: y,
                                    birth_ms: now_ms,
                                    last_update_ms: now_ms,
                                    last_fired_ms: now_ms,
                                    phase_offset_milli: phase,
                                    offspring: 0,
                                    net: child_net,
                                    scores: FitnessScores::new(),
                                };
                                self.agents.push(child);
                            } else {
                                proof {
                                    // The draw refused, so this agent cannot hold the
                                    // positive maximum: for it the draw always accepts.
                                    if tops_ledger(ledger@, idk) {
                                        assert(max == v);
                                        assert((u as i64) * max < v * 1_000_000) by (
                                        nonlinear_arith)
                                            requires
                                                0 <= u < 1_000_000,
                                                0 < v,
                                                max == v,
                                        ;
                                        assert(false);
                                    }
                                }
                            }
                        } else {
                            proof {
                                if tops_ledger(ledger@, idk) {
                                    assert(ledger@[idk].0 > 0);
                                    assert(false);
                                }
                            }
                        }
                    },
                    None => {
                        proof {
                            if tops_ledger(ledger@, idk) {
                                assert(ledger@.dom().contains(idk));
                                assert(false);
                            }
                        }
                    },
                }
            }
            proof {
                if !spawned {
                    // No order was added for this agent, and none of the
                    // earlier orders can name it: parents of earlier orders
                    // are earlier agents, and ids are distinct.
                    if has_parent_order(orders@, idk) {
                        let j = choose|j: int|
                            0 <= j < orders@.len() && (#[trigger] orders@[j]).parent_id == idk;
                        let kk = choose|kk: int|
                            0 <= kk < k && (#[trigger] old(self).agents@[kk]).id == orders@[
                                j].parent_id;
                        assert(old(self).agents@[kk].id == old(self).agents@[k as int].id);
                        assert(false);
                    }
                }
            }
            k = k + 1;
        }
        orders
    }

    /// The repopulation check: a population that has collapsed to zero is
    /// reseeded with a full generation of freshly initialized controllers
    /// at random positions; any living population is left untouched.
    pub fn reseed(&mut self, now_ms: u64) -> (orders: Vec<SpawnOrder>)
        requires
            old(self).wf(),
            old(self).next_id + NUM_CELLS <= u32::MAX,
        ensures
            final(self).wf(),
            old(self).agents@.len() > 0 ==> final(self).agents@ == old(self).agents@
                && final(self).next_id == old(self).next_id && orders@.len() == 0,
            old(self).agents@.len() == 0 ==> orders@.len() == NUM_CELLS
                && final(self).agents@.len() == NUM_CELLS
                && final(self).next_id == old(self).next_id + NUM_CELLS,
            forall|j: int|
                0 <= j < orders@.len() ==> #[trigger] orders@[j].id == old(self).next_id + 1 + j,
            forall|j: int|
                0 <= j < orders@.len() ==> ({
                    let child = final(self).agents@[j];
                    &&& child.id == (#[trigger] orders@[j]).id
                    &&& orders@[j].parent_id == orders@[j].id
                    &&& child.birth_x_milli == orders@[j].x_milli
                    &&& child.birth_y_milli == orders@[j].y_milli
                    &&& -WORLD_W_MILLI / 2 <= orders@[j].x_milli < WORLD_W_MILLI / 2
                    &&& -WORLD_H_MILLI / 2 <= orders@[j].y_milli < WORLD_H_MILLI / 2
                    &&& child.birth_ms == now_ms
                    &&& child.last_update_ms == now_ms
                    &&& child.last_fired_ms == now_ms
                    &&& child.offspring == 0
                    &&& child.scores@ == Seq::<i64>::empty()
                    &&& child.net.widths@.len() == 3
                    &&& child.net.widths@[0] == NUM_INPUT_NODES
                    &&& child.net.widths@[2] == NUM_OUTPUT_NODES
                    &&& params_fresh(child.net)
                }),
    {
        let mut orders: Vec<SpawnOrder> = Vec::new();
        if self.agents.len() > 0 {
            return orders;
        }
        let mut i: usize = 0;
        while i < NUM_CELLS
            invariant
                old(self).agents@.len() == 0,
                old(self).next_id + NUM_CELLS <= u32::MAX,
                i <= NUM_CELLS,
                orders@.len() == i,
                self.agents@.len() == i,
                self.next_id == old(self).next_id + i,
                forall|j: int|
                    0 <= j < i ==> #[trigger] orders@[j].id == old(self).next_id + 1 + j,
                forall|j: int|
                    0 <= j < i ==> ({
                        let child = self.agents@[j];
                        &&& child.id == (#[trigger] orders@[j]).id
                        &&& agent_wf(child)
                        &&& orders@[j].parent_id == orders@[j].id
                        &&& child.birth_x_milli == orders@[j].x_milli
                        &&& child.birth_y_milli == orders@[j].y_milli
                        &&& -WORLD_W_MILLI / 2 <= orders@[j].x_milli < WORLD_W_MILLI / 2
                        &&& -WORLD_H_MILLI / 2 <= orders@[j].y_milli < WORLD_H_MILLI / 2
                        &&& child.birth_ms == now_ms
                        &&& child.last_update_ms == now_ms
                        &&& child.last_fired_ms == now_ms
                        &&& child.offspring == 0
                        &&& child.scores@ == Seq::<i64>::empty()
                        &&& child.net.widths@.len() == 3
                        &&& child.net.widths@[0] == NUM_INPUT_NODES
                        &&& child.net.widths@[2] == NUM_OUTPUT_NODES
                        &&& params_fresh(child.net)
                    }),
                forall|j: int|
                    0 <= j < self.agents@.len() ==> agent_wf(#[trigger] self.agents@[j]),
                distinct_ids(self.agents@),
                forall|j: int|
                    0 <= j < self.agents@.len() ==> (#[trigger] self.agents@[j]).id
                        <= self.next_id,
            decreases NUM_CELLS - i,
        {
            let x = rand_range_i64(-WORLD_W_MILLI / 2, WORLD_W_MILLI / 2);
            let y = rand_range_i64(-WORLD_H_MILLI / 2, WORLD_H_MILLI / 2);
            let phase = rand_below(1_000);
            let net = Net::new(standard_widths());
            self.next_id = self.next_id + 1;
            let id = self.next_id;
            orders.push(SpawnOrder { id, parent_id: id, x_milli: x, y_milli: y });
            let agent = Agent {
                id,
                birth_x_milli: x,
                birth_y_milli: y,
                birth_ms: now_ms,
                last_update_ms: now_ms,
                last_fired_ms: now_ms,
                phase_offset_milli: phase,
                offspring: 0,
                net,
                scores: FitnessScores::new(),
            };
            self.agents.push(agent);
            i = i + 1;
        }
        orders
    }
}

/// Pointwise equality of parameters lets a distance bound transfer: a
/// mutation of a deep copy stays within the variation of the original.
proof fn lemma_same_params_transfers(parent: Net, mid: Net, child: Net, d: int)
    requires
        Net::same_params(parent, mid),
        Net::params_within(mid, child, d),
    ensures
        Net::params_within(parent, child, d),
{
    assert forall|l: int|
        0 <= l < parent.layers@.len() implies (#[trigger] parent.layers@[l]).weights@.len()
        == mid.layers@[l].weights@.len() by {
        assert(ints_of_all(parent.layers@[l].weights@) == ints_of_all(mid.layers@[l].weights@));
        assert(ints_of_all(parent.layers@[l].weights@).len() == parent.layers@[
            l].weights@.len());
    }
    assert forall|l: int, j: int|
        0 <= l < parent.layers@.len() && 0 <= j < parent.layers@[l].weights@.len() implies (
    #[trigger] parent.layers@[l].weights@[j])@ == mid.layers@[l].weights@[j]@ by {
        assert(ints_of_all(parent.layers@[l].weights@) == ints_of_all(mid.layers@[l].weights@));
        assert(ints_of_all(parent.layers@[l].weights@)[j] == ints_of(parent.layers@[
            l].weights@[j]@));
        assert(ints_of_all(mid.layers@[l].weights@)[j] == ints_of(mid.layers@[l].weights@[j]@));
        lemma_ints_of_injective(parent.layers@[l].weights@[j]@, mid.layers@[l].weights@[j]@);
    }
}

/// Two fixed-point vectors with the same integer view are equal.
proof fn lemma_ints_of_injective(a: Seq<i64>, b: Seq<i64>)
    requires
        ints_of(a) == ints_of(b),
    ensures
        a == b,
{
    assert(a.len() == ints_of(a).len());
    assert(b.len() == ints_of(b).len());
    assert forall|i: int| 0 <= i < a.len() implies a[i] == b[i] by {
        assert(ints_of(a)[i] == a[i] as int);
        assert(ints_of(b)[i] == b[i] as int);
    }
    assert(a =~= b);
}

/// Whether some agent of `s` carries `id`.
pub open spec fn has_agent_id(s: Seq<Agent>, id: u32) -> bool {
    exists|i: int| 0 <= i < s.len() && #[trigger] s[i].id == id
}

/// Every agent of `kept` is one of the first `bound` agents of `pre`.
pub open spec fn agents_from(kept: Seq<Agent>, pre: Seq<Agent>, bound: int) -> bool {
    forall|j: int|
        0 <= j < kept.len() ==> exists|k: int| 0 <= k < bound && #[trigger] kept[j] == pre[k]
}

} // verus!

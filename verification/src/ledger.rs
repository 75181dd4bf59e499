//! The energy ledger: a process-wide mapping from agent id to the agent's
//! energy and the instant it was last touched.
//!
//! Entries are created lazily on first touch, energy is clamped above by
//! [`MAX_ENERGY_MILLI`] and may go negative transiently, and entries whose
//! last touch is older than [`LEDGER_TTL_MS`] are purged on each decay
//! cycle, so ids of agents removed elsewhere cannot accumulate.

use vstd::prelude::*;

use crate::config::{
    BASE_ENERGY_MILLI, ENERGY_PER_FOOD_MILLI, LEDGER_TTL_MS, MAX_ENERGY_MILLI,
    MAX_FITNESS_MILLI, PROJECTILE_MISS_PENALTY_MILLI, SCALE,
};

verus! {

/// One ledger entry: an agent's energy and when it was last touched.
pub struct LedgerEntry {
    /// The agent this entry belongs to.
    pub id: u32,
    /// Energy in milli-units; may be negative until the agent is culled.
    pub energy: i64,
    /// Clock reading of the last touch, milliseconds.
    pub touched_ms: u64,
}

/// Whether some entry of `s` carries `id`.
pub open spec fn has_id(s: Seq<LedgerEntry>, id: u32) -> bool {
    exists|i: int| 0 <= i < s.len() && #[trigger] s[i].id == id
}

/// Every id occurs at most once.
pub open spec fn unique_ids(s: Seq<LedgerEntry>) -> bool {
    forall|i: int, j: int|
        0 <= i < j < s.len() ==> #[trigger] s[i].id != #[trigger] s[j].id
}

/// The index of the entry carrying `id` (meaningful only under
/// [`unique_ids`] when [`has_id`] holds).
pub open spec fn idx_of(s: Seq<LedgerEntry>, id: u32) -> int {
    choose|i: int| 0 <= i < s.len() && #[trigger] s[i].id == id
}

/// The data the entry carrying `id` holds: energy and last touch.
pub open spec fn data_of(s: Seq<LedgerEntry>, id: u32) -> (i64, u64) {
    (s[idx_of(s, id)].energy, s[idx_of(s, id)].touched_ms)
}

/// Subtraction that bottoms out at the representable minimum instead of
/// wrapping; energy far below zero has no further meaning, the agent is
/// culled either way.
pub open spec fn sub_floor(e: int, a: int) -> int {
    if e - a < i64::MIN {
        i64::MIN as int
    } else {
        e - a
    }
}

/// The energy decay of one cycle: the decay rate scaled by the agent's
/// average fitness.
pub open spec fn decay_amount(rate: int, fitness: int) -> int {
    rate * fitness / (SCALE as int)
}

/// An entry touched at `t` is still fresh at `now` under the ledger TTL.
pub open spec fn fresh_at(t: u64, now: u64) -> bool {
    now - t <= LEDGER_TTL_MS
}

/// Every kept entry is one of the first `bound` entries of `pre`.
pub open spec fn drawn_from(kept: Seq<LedgerEntry>, pre: Seq<LedgerEntry>, bound: int) -> bool {
    forall|j: int|
        0 <= j < kept.len() ==> exists|k: int| 0 <= k < bound && #[trigger] kept[j] == pre[k]
}

/// Among the first `bound` entries of `pre`, exactly the fresh ids are kept.
pub open spec fn keeps_fresh(
    kept: Seq<LedgerEntry>,
    pre: Seq<LedgerEntry>,
    bound: int,
    now: u64,
) -> bool {
    forall|k: int|
        0 <= k < bound ==> (fresh_at(#[trigger] pre[k].touched_ms, now) == has_id(
            kept,
            pre[k].id,
        ))
}

/// The ledger contents of an entry list, as a mapping from id to data.
pub open spec fn map_of(s: Seq<LedgerEntry>) -> Map<u32, (i64, u64)> {
    Map::new(|id: u32| has_id(s, id), |id: u32| data_of(s, id))
}

/// Process-wide ledger of agent vitality with staleness-based eviction.
pub struct EnergyMap {
    entries: Vec<LedgerEntry>,
}

impl EnergyMap {
    /// The ledger as a mapping from id to (energy, last touch).
    pub closed spec fn view(&self) -> Map<u32, (i64, u64)> {
        map_of(self.entries@)
    }

    /// Ids are unique and energy never exceeds its clamp.
    pub closed spec fn wf(&self) -> bool {
        &&& unique_ids(self.entries@)
        &&& forall|i: int|
            0 <= i < self.entries@.len() ==> #[trigger] self.entries@[i].energy
                <= MAX_ENERGY_MILLI
    }

    /// An empty ledger.
    pub fn new() -> (r: EnergyMap)
        ensures
            r.wf(),
            r@ == Map::<u32, (i64, u64)>::empty(),
    {
        let r = EnergyMap { entries: Vec::new() };
        proof {
            assert(r@ =~= Map::<u32, (i64, u64)>::empty());
        }
        r
    }

    /// The index of the entry carrying `id`, if one exists.
    fn find(&self, id: u32) -> (r: Option<usize>)
        requires
            self.wf(),
        ensures
            match r {
                Some(i) => i < self.entries@.len() && self.entries@[i as int].id == id
                    && i == idx_of(self.entries@, id),
                None => !has_id(self.entries@, id),
            },
    {
        let n = self.entries.len();
        let mut i: usize = 0;
        while i < n
            invariant
                self.wf(),
                n == self.entries@.len(),
                i <= n,
                forall|j: int| 0 <= j < i ==> #[trigger] self.entries@[j].id != id,
            decreases n - i,
        {
            if self.entries[i].id == id {
                proof {
                    lemma_idx_unique(self.entries@, id, i as int);
                }
                return Some(i);
            }
            i = i + 1;
        }
        None
    }

    /// Read an agent's energy; `None` exactly when the ledger has no entry.
    pub fn get_energy(&self, id: u32) -> (r: Option<i64>)
        requires
            self.wf(),
        ensures
            match r {
                Some(e) => self@.dom().contains(id) && e == self@[id].0 && e
                    <= MAX_ENERGY_MILLI,
                None => !self@.dom().contains(id),
            },
    {
        match self.find(id) {
            Some(i) => Some(self.entries[i].energy),
            None => None,
        }
    }

    /// Whether the ledger has an entry for `id`.
    pub fn contains(&self, id: u32) -> (r: bool)
        requires
            self.wf(),
        ensures
            r == self@.dom().contains(id),
    {
        match self.find(id) {
            Some(_) => true,
            None => false,
        }
    }

    /// Apply one decay tick to `id`: an existing entry loses the decay
    /// amount for `fitness` and is touched; a missing one is created at the
    /// base energy.
    pub fn decay(&mut self, id: u32, fitness_milli: i64, rate_milli: i64, now_ms: u64)
        requires
            old(self).wf(),
            0 <= fitness_milli <= MAX_FITNESS_MILLI,
            0 <= rate_milli <= 1_000_000,
        ensures
            final(self).wf(),
            final(self)@ == decay_one(old(self)@, id, fitness_milli as int, rate_milli as int, now_ms),
    {
        assert(0 <= rate_milli * fitness_milli <= 1_000_000 * (MAX_FITNESS_MILLI as int))
            by (nonlinear_arith)
            requires
                0 <= fitness_milli <= MAX_FITNESS_MILLI,
                0 <= rate_milli <= 1_000_000,
        ;
        let amount = rate_milli * fitness_milli / SCALE;
        match self.find(id) {
            Some(i) => {
                let e = self.entries[i].energy;
                let new_e: i64 = if e >= i64::MIN + amount {
                    e - amount
                } else {
                    i64::MIN
                };
                let ghost pre = self.entries@;
                self.entries[i] = LedgerEntry { id, energy: new_e, touched_ms: now_ms };
                proof {
                    lemma_view_update(pre, i as int, self.entries@[i as int]);
                }
            },
            None => {
                let ghost pre = self.entries@;
                self.entries.push(
                    LedgerEntry { id, energy: BASE_ENERGY_MILLI, touched_ms: now_ms },
                );
                proof {
                    lemma_view_push(pre, self.entries@.last());
                }
            },
        }
    }

    /// Credit food energy to `id`, clamped above at the maximum; a missing
    /// entry is created holding the credited amount.
    pub fn credit(&mut self, id: u32, amount_milli: i64, now_ms: u64)
        requires
            old(self).wf(),
            0 <= amount_milli <= MAX_ENERGY_MILLI,
        ensures
            final(self).wf(),
            final(self)@ == credit_one(old(self)@, id, amount_milli as int, now_ms),
    {
        match self.find(id) {
            Some(i) => {
                let e = self.entries[i].energy;
                let summed = e + amount_milli;
                let new_e: i64 = if summed > MAX_ENERGY_MILLI {
                    MAX_ENERGY_MILLI
                } else {
                    summed
                };
                let ghost pre = self.entries@;
                self.entries[i] = LedgerEntry { id, energy: new_e, touched_ms: now_ms };
                proof {
                    lemma_view_update(pre, i as int, self.entries@[i as int]);
                }
            },
            None => {
                let ghost pre = self.entries@;
                self.entries.push(LedgerEntry { id, energy: amount_milli, touched_ms: now_ms });
                proof {
                    lemma_view_push(pre, self.entries@.last());
                }
            },
        }
    }

    /// Charge a penalty to `id` and touch the entry; a missing entry is
    /// left missing.
    pub fn penalize(&mut self, id: u32, amount_milli: i64, now_ms: u64)
        requires
            old(self).wf(),
            amount_milli >= 0,
        ensures
            final(self).wf(),
            final(self)@ == penalize_one(old(self)@, id, amount_milli as int, now_ms),
    {
        match self.find(id) {
            Some(i) => {
                let e = self.entries[i].energy;
                let new_e: i64 = if e >= i64::MIN + amount_milli {
                    e - amount_milli
                } else {
                    i64::MIN
                };
                let ghost pre = self.entries@;
                self.entries[i] = LedgerEntry { id, energy: new_e, touched_ms: now_ms };
                proof {
                    lemma_view_update(pre, i as int, self.entries@[i as int]);
                }
            },
            None => {
                proof {
                    assert(self@ =~= penalize_one(old(self)@, id, amount_milli as int, now_ms));
                }
            },
        }
    }

    /// Route a food hit to the projectile's owner: the standard food
    /// credit, clamped at the maximum.
    pub fn food_hit(&mut self, owner: u32, now_ms: u64)
        requires
            old(self).wf(),
        ensures
            final(self).wf(),
            final(self)@ == credit_one(old(self)@, owner, ENERGY_PER_FOOD_MILLI as int, now_ms),
    {
        self.credit(owner, ENERGY_PER_FOOD_MILLI, now_ms);
    }

    /// Charge the owner of a projectile that expired without a hit.
    pub fn projectile_missed(&mut self, owner: u32, now_ms: u64)
        requires
            old(self).wf(),
        ensures
            final(self).wf(),
            final(self)@ == penalize_one(
                old(self)@,
                owner,
                PROJECTILE_MISS_PENALTY_MILLI as int,
                now_ms,
            ),
    {
        self.penalize(owner, PROJECTILE_MISS_PENALTY_MILLI, now_ms);
    }

    /// The population-wide maximum energy; `None` on an empty ledger.
    pub fn max_energy(&self) -> (r: Option<i64>)
        requires
            self.wf(),
        ensures
            match r {
                Some(m) => (exists|id: u32| #[trigger] self@.dom().contains(id) && self@[id].0
                    == m) && (forall|id: u32| #[trigger] self@.dom().contains(id) ==> self@[
                    id].0 <= m) && m <= MAX_ENERGY_MILLI,
                None => self@.dom() =~= Set::<u32>::empty(),
            },
    {
        let n = self.entries.len();
        if n == 0 {
            proof {
                assert forall|id: u32| !self@.dom().contains(id) by {
                    if has_id(self.entries@, id) {
                        let i = choose|i: int|
                            0 <= i < self.entries@.len() && #[trigger] self.entries@[i].id == id;
                        assert(false);
                    }
                }
            }
            return None;
        }
        let mut best: i64 = self.entries[0].energy;
        let ghost mut best_idx: int = 0;
        let mut i: usize = 1;
        while i < n
            invariant
                self.wf(),
                n == self.entries@.len(),
                1 <= i <= n,
                0 <= best_idx < i,
                best == self.entries@[best_idx].energy,
                forall|k: int| 0 <= k < i ==> #[trigger] self.entries@[k].energy <= best,
            decreases n - i,
        {
            if self.entries[i].energy > best {
                best = self.entries[i].energy;
                proof {
                    best_idx = i as int;
                }
            }
            i = i + 1;
        }
        proof {
            let bid = self.entries@[best_idx].id;
            lemma_idx_unique(self.entries@, bid, best_idx);
            assert(self@.dom().contains(bid) && self@[bid].0 == best);
            assert forall|id: u32| #[trigger] self@.dom().contains(id) implies self@[id].0
                <= best by {
                let k = idx_of(self.entries@, id);
            }
        }
        Some(best)
    }

    /// Drop the entry for `id`, if any.
    pub fn remove_entry(&mut self, id: u32)
        requires
            old(self).wf(),
        ensures
            final(self).wf(),
            final(self)@ == old(self)@.remove(id),
    {
        match self.find(id) {
            Some(i) => {
                let ghost pre = self.entries@;
                self.entries.remove(i);
                proof {
                    lemma_view_remove(pre, i as int);
                }
            },
            None => {
                proof {
                    assert(self@ =~= old(self)@.remove(id));
                }
            },
        }
    }

    /// Purge every entry whose last touch is older than the TTL.
    #[verifier::rlimit(60)]
    #[verifier::spinoff_prover]
    pub fn purge_stale(&mut self, now_ms: u64)
        requires
            old(self).wf(),
        ensures
            final(self).wf(),
            final(self)@ == purged(old(self)@, now_ms),
    {
        let n = self.entries.len();
        let mut kept: Vec<LedgerEntry> = Vec::new();
        let mut i: usize = 0;
        while i < n
            invariant
                unique_ids(self.entries@),
                forall|j: int|
                    0 <= j < self.entries@.len() ==> #[trigger] self.entries@[j].energy
                        <= MAX_ENERGY_MILLI,
                n == self.entries@.len(),
                i <= n,
                drawn_from(kept@, self.entries@, i as int),
                keeps_fresh(kept@, self.entries@, i as int, now_ms),
                unique_ids(kept@),
            decreases n - i,
        {
            let e = &self.entries[i];
            let keep = if e.touched_ms >= now_ms {
                true
            } else {
                now_ms - e.touched_ms <= LEDGER_TTL_MS
            };
            proof {
                let cur = self.entries@[i as int];
                if has_id(kept@, cur.id) {
                    let j = choose|j: int|
                        0 <= j < kept@.len() && #[trigger] kept@[j].id == cur.id;
                    let k = choose|k: int|
                        0 <= k < i && #[trigger] kept@[j] == self.entries@[k];
                    assert(self.entries@[k].id == cur.id);
                    assert(false);
                }
            }
            if keep {
                let ghost kept_pre = kept@;
                let copied = LedgerEntry {
                    id: e.id,
                    energy: e.energy,
                    touched_ms: e.touched_ms,
                };
                kept.push(copied);
                proof {
                    let cur = self.entries@[i as int];
                    assert(kept@ == kept_pre.push(copied));
                    assert(drawn_from(kept@, self.entries@, i + 1)) by {
                        assert forall|j: int| 0 <= j < kept@.len() implies exists|k: int|
                            0 <= k < i + 1 && #[trigger] kept@[j] == self.entries@[k] by {
                            if j < kept_pre.len() {
                                let k = choose|k: int|
                                    0 <= k < i && #[trigger] kept_pre[j] == self.entries@[k];
                                assert(kept@[j] == self.entries@[k]);
                            } else {
                                assert(kept@[j] == self.entries@[i as int]);
                            }
                        }
                    }
                    assert(keeps_fresh(kept@, self.entries@, i + 1, now_ms)) by {
                        assert forall|k: int|
                            0 <= k < i + 1 && fresh_at(
                                #[trigger] self.entries@[k].touched_ms,
                                now_ms,
                            ) implies has_id(kept@, self.entries@[k].id) by {
                            if k == i {
                                assert(kept@[kept@.len() - 1].id == cur.id);
                            } else {
                                let j = choose|j: int|
                                    0 <= j < kept_pre.len() && #[trigger] kept_pre[j].id
                                        == self.entries@[k].id;
                                assert(kept@[j].id == self.entries@[k].id);
                            }
                        }
                        assert forall|k: int|
                            0 <= k < i + 1 && !fresh_at(
                                #[trigger] self.entries@[k].touched_ms,
                                now_ms,
                            ) implies !has_id(kept@, self.entries@[k].id) by {
                            if has_id(kept@, self.entries@[k].id) {
                                let j = choose|j: int|
                                    0 <= j < kept@.len() && #[trigger] kept@[j].id
                                        == self.entries@[k].id;
                                if j < kept_pre.len() {
                                    assert(kept_pre[j].id == self.entries@[k].id);
                                } else {
                                    assert(self.entries@[k].id == cur.id);
                                    if k < i {
                                        assert(self.entries@[k].id != self.entries@[
                                            i as int].id);
                                    }
                                }
                            }
                        }
                    }
                    assert(unique_ids(kept@)) by {
                        assert forall|a: int, b: int| 0 <= a < b < kept@.len()
                            implies #[trigger] kept@[a].id != #[trigger] kept@[b].id by {
                            if b < kept_pre.len() {
                                assert(kept_pre[a].id != kept_pre[b].id);
                            } else {
                                assert(kept@[b].id == cur.id);
                                assert(kept_pre[a].id == kept@[a].id);
                            }
                        }
                    }
                }
            } else {
                proof {
                    assert(drawn_from(kept@, self.entries@, i + 1)) by {
                        assert forall|j: int| 0 <= j < kept@.len() implies exists|k: int|
                            0 <= k < i + 1 && #[trigger] kept@[j] == self.entries@[k] by {
                            let k = choose|k: int|
                                0 <= k < i && #[trigger] kept@[j] == self.entries@[k];
                            assert(0 <= k < i + 1 && kept@[j] == self.entries@[k]);
                        }
                    }
                    assert(keeps_fresh(kept@, self.entries@, i + 1, now_ms));
                }
            }
            i = i + 1;
        }
        self.entries = kept;
        proof {
            lemma_purge_view(old(self).entries@, self.entries@, now_ms);
            assert(self@ =~= purged(old(self)@, now_ms));
        }
    }
}

/// The mapping after one decay tick of `id`.
pub open spec fn decay_one(
    m: Map<u32, (i64, u64)>,
    id: u32,
    fitness: int,
    rate: int,
    now: u64,
) -> Map<u32, (i64, u64)> {
    if m.dom().contains(id) {
        m.insert(id, (sub_floor(m[id].0 as int, decay_amount(rate, fitness)) as i64, now))
    } else {
        m.insert(id, (BASE_ENERGY_MILLI, now))
    }
}

/// The mapping after a food credit to `id`.
pub open spec fn credit_one(
    m: Map<u32, (i64, u64)>,
    id: u32,
    amount: int,
    now: u64,
) -> Map<u32, (i64, u64)> {
    if m.dom().contains(id) {
        m.insert(
            id,
            (
                (if m[id].0 + amount > MAX_ENERGY_MILLI {
                    MAX_ENERGY_MILLI as int
                } else {
                    m[id].0 + amount
                }) as i64,
                now,
            ),
        )
    } else {
        m.insert(id, (amount as i64, now))
    }
}

/// The mapping after a penalty to `id`: untouched when `id` has no entry.
pub open spec fn penalize_one(
    m: Map<u32, (i64, u64)>,
    id: u32,
    amount: int,
    now: u64,
) -> Map<u32, (i64, u64)> {
    if m.dom().contains(id) {
        m.insert(id, (sub_floor(m[id].0 as int, amount) as i64, now))
    } else {
        m
    }
}

/// The mapping after eviction of everything stale at `now`.
pub open spec fn purged(m: Map<u32, (i64, u64)>, now: u64) -> Map<u32, (i64, u64)> {
    Map::new(
        |id: u32| m.dom().contains(id) && fresh_at(m[id].1, now),
        |id: u32| m[id],
    )
}

/// Under unique ids, an index carrying `id` is the index [`idx_of`] picks.
proof fn lemma_idx_unique(s: Seq<LedgerEntry>, id: u32, i: int)
    requires
        unique_ids(s),
        0 <= i < s.len(),
        s[i].id == id,
    ensures
        idx_of(s, id) == i,
{
    let j = idx_of(s, id);
    assert(0 <= j < s.len() && s[j].id == id);
    if i < j {
        assert(s[i].id != s[j].id);
    } else if j < i {
        assert(s[j].id != s[i].id);
    }
}

/// Updating the entry at `i` with an entry of the same id updates the
/// mapping at that id alone.
proof fn lemma_view_update(pre: Seq<LedgerEntry>, i: int, e: LedgerEntry)
    requires
        unique_ids(pre),
        0 <= i < pre.len(),
        e.id == pre[i].id,
    ensures
        unique_ids(pre.update(i, e)),
        map_of(pre.update(i, e)) == map_of(pre).insert(e.id, (e.energy, e.touched_ms)),
{
    let post = pre.update(i, e);
    assert forall|id: u32| has_id(post, id) <==> has_id(pre, id) by {
        if has_id(post, id) {
            let k = choose|k: int| 0 <= k < post.len() && #[trigger] post[k].id == id;
            assert(pre[k].id == id);
        }
        if has_id(pre, id) {
            let k = choose|k: int| 0 <= k < pre.len() && #[trigger] pre[k].id == id;
            assert(post[k].id == id);
        }
    }
    assert forall|id: u32| has_id(pre, id) && id != e.id implies data_of(post, id) == data_of(
        pre,
        id,
    ) by {
        lemma_idx_unique(pre, id, idx_of(pre, id));
        let k = idx_of(pre, id);
        assert(post[k].id == id);
        lemma_idx_unique(post, id, k);
    }
    assert(has_id(post, e.id)) by {
        assert(post[i].id == e.id);
    }
    assert(data_of(post, e.id) == (e.energy, e.touched_ms)) by {
        lemma_idx_unique(post, e.id, i);
    }
    assert(map_of(post) =~= map_of(pre).insert(e.id, (e.energy, e.touched_ms)));
}

/// Appending an entry with a new id inserts exactly that id.
proof fn lemma_view_push(pre: Seq<LedgerEntry>, e: LedgerEntry)
    requires
        unique_ids(pre),
        !has_id(pre, e.id),
    ensures
        unique_ids(pre.push(e)),
        map_of(pre.push(e)) == map_of(pre).insert(e.id, (e.energy, e.touched_ms)),
{
    let post = pre.push(e);
    assert(unique_ids(post)) by {
        assert forall|i: int, j: int| 0 <= i < j < post.len() implies #[trigger] post[i].id
            != #[trigger] post[j].id by {
            if j < pre.len() {
                assert(pre[i].id != pre[j].id);
            } else {
                assert(post[j].id == e.id);
                assert(post[i].id == pre[i].id);
            }
        }
    }
    assert forall|id: u32| has_id(post, id) <==> (has_id(pre, id) || id == e.id) by {
        if has_id(post, id) {
            let k = choose|k: int| 0 <= k < post.len() && #[trigger] post[k].id == id;
            if k < pre.len() {
                assert(pre[k].id == id);
            }
        }
        if has_id(pre, id) {
            let k = choose|k: int| 0 <= k < pre.len() && #[trigger] pre[k].id == id;
            assert(post[k].id == id);
        }
        if id == e.id {
            assert(post[pre.len() as int].id == id);
        }
    }
    assert forall|id: u32| has_id(pre, id) implies data_of(post, id) == data_of(pre, id) by {
        lemma_idx_unique(pre, id, idx_of(pre, id));
        let k = idx_of(pre, id);
        assert(post[k].id == id);
        lemma_idx_unique(post, id, k);
    }
    assert(data_of(post, e.id) == (e.energy, e.touched_ms)) by {
        lemma_idx_unique(post, e.id, pre.len() as int);
    }
    assert(map_of(post) =~= map_of(pre).insert(e.id, (e.energy, e.touched_ms)));
}

/// Removing the entry at `i` removes exactly its id from the mapping.
proof fn lemma_view_remove(pre: Seq<LedgerEntry>, i: int)
    requires
        unique_ids(pre),
        0 <= i < pre.len(),
    ensures
        unique_ids(pre.remove(i)),
        map_of(pre.remove(i)) == map_of(pre).remove(pre[i].id),
{
    let post = pre.remove(i);
    assert(unique_ids(post)) by {
        assert forall|a: int, b: int| 0 <= a < b < post.len() implies #[trigger] post[a].id
            != #[trigger] post[b].id by {
            let a0 = if a < i {
                a
            } else {
                a + 1
            };
            let b0 = if b < i {
                b
            } else {
                b + 1
            };
            assert(post[a] == pre[a0]);
            assert(post[b] == pre[b0]);
            assert(pre[a0].id != pre[b0].id);
        }
    }
    assert forall|id: u32| #![auto] has_id(post, id) <==> (has_id(pre, id) && id != pre[i].id) by {
        if has_id(post, id) {
            let k = choose|k: int| 0 <= k < post.len() && #[trigger] post[k].id == id;
            let k0 = if k < i {
                k
            } else {
                k + 1
            };
            assert(pre[k0].id == id);
            if id == pre[i].id {
                lemma_idx_unique(pre, id, k0);
                lemma_idx_unique(pre, id, i);
            }
        }
        if has_id(pre, id) && id != pre[i].id {
            let k = choose|k: int| 0 <= k < pre.len() && #[trigger] pre[k].id == id;
            let k1 = if k < i {
                k
            } else {
                k - 1
            };
            assert(post[k1].id == id);
        }
    }
    assert forall|id: u32| has_id(post, id) implies data_of(post, id) == data_of(pre, id) by {
        let k1 = idx_of(post, id);
        lemma_idx_unique(post, id, k1);
        let k0 = if k1 < i {
            k1
        } else {
            k1 + 1
        };
        assert(pre[k0].id == id);
        lemma_idx_unique(pre, id, k0);
        assert(post[k1] == pre[k0]);
    }
    assert(map_of(post) =~= map_of(pre).remove(pre[i].id));
}

/// A rebuilt entry list holding exactly the fresh entries carries the
/// purged mapping.
proof fn lemma_purge_view(pre: Seq<LedgerEntry>, kept: Seq<LedgerEntry>, now: u64)
    requires
        unique_ids(pre),
        unique_ids(kept),
        drawn_from(kept, pre, pre.len() as int),
        keeps_fresh(kept, pre, pre.len() as int, now),
    ensures
        map_of(kept) == purged(map_of(pre), now),
{
    assert forall|id: u32| #![auto] has_id(kept, id) implies has_id(pre, id) && fresh_at(
        data_of(pre, id).1,
        now,
    ) && data_of(kept, id) == data_of(pre, id) by {
        let j = idx_of(kept, id);
        lemma_idx_unique(kept, id, j);
        let k = choose|k: int| 0 <= k < pre.len() && #[trigger] kept[j] == pre[k];
        assert(pre[k].id == id);
        lemma_idx_unique(pre, id, k);
        assert(fresh_at(pre[k].touched_ms, now));
    }
    assert forall|id: u32| #![auto] has_id(pre, id) && fresh_at(data_of(pre, id).1, now)
        implies has_id(kept, id) by {
        let k = idx_of(pre, id);
        lemma_idx_unique(pre, id, k);
    }
    assert(map_of(kept) =~= purged(map_of(pre), now));
}

/// The mapping after decay ticks for a whole list of `(id, fitness)` pairs,
/// applied first to last.
pub open spec fn decay_all(
    m: Map<u32, (i64, u64)>,
    agents: Seq<(u32, i64)>,
    rate: int,
    now: u64,
) -> Map<u32, (i64, u64)>
    decreases agents.len(),
{
    if agents.len() == 0 {
        m
    } else {
        decay_all(
            decay_one(m, agents.first().0, agents.first().1 as int, rate, now),
            agents.drop_first(),
            rate,
            now,
        )
    }
}

impl EnergyMap {
    /// One decay cycle: every living agent's entry decays by its fitness
    /// (created at base energy if missing), then stale entries are purged.
    pub fn decay_cycle(&mut self, agents: &Vec<(u32, i64)>, rate_milli: i64, now_ms: u64)
        requires
            old(self).wf(),
            0 <= rate_milli <= 1_000_000,
            forall|k: int|
                0 <= k < agents@.len() ==> 0 <= (#[trigger] agents@[k]).1 <= MAX_FITNESS_MILLI,
        ensures
            final(self).wf(),
            final(self)@ == purged(decay_all(old(self)@, agents@, rate_milli as int, now_ms), now_ms),
    {
        let ghost target = decay_all(old(self)@, agents@, rate_milli as int, now_ms);
        proof {
            assert(agents@.skip(0) =~= agents@);
        }
        let n = agents.len();
        let mut i: usize = 0;
        while i < n
            invariant
                self.wf(),
                n == agents@.len(),
                i <= n,
                0 <= rate_milli <= 1_000_000,
                forall|k: int|
                    0 <= k < agents@.len() ==> 0 <= (#[trigger] agents@[k]).1
                        <= MAX_FITNESS_MILLI,
                decay_all(self@, agents@.skip(i as int), rate_milli as int, now_ms) == target,
            decreases n - i,
        {
            let ghost rest = agents@.skip(i as int);
            proof {
                assert(rest.first() == agents@[i as int]);
                assert(rest.drop_first() =~= agents@.skip(i + 1));
            }
            let pair = agents[i];
            self.decay(pair.0, pair.1, rate_milli, now_ms);
            i = i + 1;
        }
        proof {
            assert(agents@.skip(n as int) =~= Seq::<(u32, i64)>::empty());
        }
        self.purge_stale(now_ms);
    }
}

/// Decay ticks for other agents leave an absent id absent and a present
/// id's entry unchanged.
proof fn lemma_decay_all_untouched(
    m: Map<u32, (i64, u64)>,
    agents: Seq<(u32, i64)>,
    rate: int,
    now: u64,
    id: u32,
)
    requires
        forall|k: int| 0 <= k < agents.len() ==> (#[trigger] agents[k]).0 != id,
    ensures
        decay_all(m, agents, rate, now).dom().contains(id) == m.dom().contains(id),
        m.dom().contains(id) ==> decay_all(m, agents, rate, now)[id] == m[id],
    decreases agents.len(),
{
    if agents.len() > 0 {
        let m1 = decay_one(m, agents.first().0, agents.first().1 as int, rate, now);
        assert(agents.first().0 != id);
        assert forall|k: int| 0 <= k < agents.drop_first().len() implies (#[trigger] agents
            .drop_first()[k]).0 != id by {
            assert(agents.drop_first()[k] == agents[k + 1]);
        }
        lemma_decay_all_untouched(m1, agents.drop_first(), rate, now, id);
    }
}

/// Law: crediting food to an agent already at the energy maximum leaves its
/// energy unchanged at the maximum.
pub proof fn lemma_credit_at_max(m: Map<u32, (i64, u64)>, id: u32, amount: int, now: u64)
    requires
        m.dom().contains(id),
        m[id].0 == MAX_ENERGY_MILLI,
        0 <= amount,
    ensures
        credit_one(m, id, amount, now)[id].0 == MAX_ENERGY_MILLI,
{
}

/// Law: a ledger entry of an agent not touched by a decay cycle is purged
/// by that cycle exactly when its last touch is older than the TTL; a
/// fresher entry survives the cycle unchanged.
pub proof fn lemma_ttl_eviction(
    m: Map<u32, (i64, u64)>,
    agents: Seq<(u32, i64)>,
    rate: int,
    now: u64,
    id: u32,
)
    requires
        m.dom().contains(id),
        forall|k: int| 0 <= k < agents.len() ==> (#[trigger] agents[k]).0 != id,
    ensures
        now - m[id].1 > LEDGER_TTL_MS ==> !purged(
            decay_all(m, agents, rate, now),
            now,
        ).dom().contains(id),
        now - m[id].1 <= LEDGER_TTL_MS ==> purged(decay_all(m, agents, rate, now), now).dom()
            .contains(id) && purged(decay_all(m, agents, rate, now), now)[id] == m[id],
{
    lemma_decay_all_untouched(m, agents, rate, now, id);
}

} // verus!

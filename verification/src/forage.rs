//! The forage index: an immutable nearest-neighbor snapshot over current
//! food positions, rebuilt wholesale on its own cadence.
//!
//! The snapshot is a kd-tree of the `kd_tree` crate over integer
//! milli-unit coordinates.  Verus sees the tree through one named contents
//! multiset and two trusted wrappers; everything downstream of a query is
//! verified against those.  This module also holds the food replenishment
//! rules.

use vstd::multiset::Multiset;
use vstd::prelude::*;

use crate::config::{FOOD_CHUNK, WORLD_H_MILLI, WORLD_W_MILLI};
use crate::rng::{rand_below, rand_range_i64};

verus! {

/// Coordinates the index accepts: small enough that any squared distance
/// between two points stays far inside `i64`.
pub open spec fn coord_ok(p: (i64, i64)) -> bool {
    &&& -100_000_000 <= p.0 <= 100_000_000
    &&& -100_000_000 <= p.1 <= 100_000_000
}

/// Squared distance between two points.
pub open spec fn sq_dist(a: (i64, i64), b: (i64, i64)) -> int {
    (a.0 - b.0) * (a.0 - b.0) + (a.1 - b.1) * (a.1 - b.1)
}

/// An immutable nearest-neighbor snapshot of food positions.
#[verifier::external_body]
pub struct ForageIndex {
    tree: kd_tree::KdTree<[i64; 2]>,
}

/// The multiset of points a [`ForageIndex`] holds.
pub uninterp spec fn index_points(idx: ForageIndex) -> Multiset<(i64, i64)>;

/// Relies on `kd_tree::KdTree::build`: the tree holds exactly the points
/// it was built from.
#[verifier::external_body]
pub fn build_index(points: Vec<(i64, i64)>) -> (r: ForageIndex)
    requires
        forall|i: int| 0 <= i < points@.len() ==> coord_ok(#[trigger] points@[i]),
    ensures
        index_points(r) == points@.to_multiset(),
{
    let arr: Vec<[i64; 2]> = points.into_iter().map(|p| [p.0, p.1]).collect();
    ForageIndex { tree: kd_tree::KdTree::build(arr) }
}

/// Relies on `kd_tree::KdSliceN::nearest` (through `KdTreeN`'s deref): it
/// returns `None` exactly on an empty tree, and otherwise an item of the
/// tree whose squared distance to the query is minimal.
#[verifier::external_body]
pub fn nearest_point(idx: &ForageIndex, qx: i64, qy: i64) -> (r: Option<(i64, i64)>)
    requires
        -100_000_000 <= qx <= 100_000_000,
        -100_000_000 <= qy <= 100_000_000,
        forall|p: (i64, i64)| index_points(*idx).contains(p) ==> coord_ok(p),
    ensures
        match r {
            Some(t) => index_points(*idx).contains(t) && forall|p: (i64, i64)|
                index_points(*idx).contains(p) ==> sq_dist((qx, qy), t) <= sq_dist((qx, qy), p),
            None => index_points(*idx) == Multiset::<(i64, i64)>::empty(),
        },
{
    idx.tree.nearest(&[qx, qy]).map(|found| (found.item[0], found.item[1]))
}

/// A valid target for an agent at `q`: the nearest food position, or the
/// origin when no food is indexed (a deliberate fallback, not an error).
pub open spec fn target_valid(pts: Multiset<(i64, i64)>, q: (i64, i64), t: (i64, i64)) -> bool {
    if pts == Multiset::<(i64, i64)>::empty() {
        t == (0i64, 0i64)
    } else {
        pts.contains(t) && forall|p: (i64, i64)| pts.contains(p) ==> sq_dist(q, t) <= sq_dist(
            q,
            p,
        )
    }
}

/// The nearest food to `q`, or the origin when the index is empty.
pub fn nearest_or_origin(idx: &ForageIndex, qx: i64, qy: i64) -> (r: (i64, i64))
    requires
        -100_000_000 <= qx <= 100_000_000,
        -100_000_000 <= qy <= 100_000_000,
        forall|p: (i64, i64)| index_points(*idx).contains(p) ==> coord_ok(p),
    ensures
        target_valid(index_points(*idx), (qx, qy), r),
        coord_ok(r),
{
    match nearest_point(idx, qx, qy) {
        Some(t) => t,
        None => (0, 0),
    }
}

/// How many food items to spawn this cycle: none while the stock is close
/// to the target, a full restock from empty, otherwise one chunk.
pub fn food_spawn_count(current: usize, target: usize) -> (r: usize)
    requires
        target >= FOOD_CHUNK,
    ensures
        r == (if current > target - FOOD_CHUNK {
            0usize
        } else if current == 0 {
            target
        } else {
            FOOD_CHUNK
        }),
{
    if current > target - FOOD_CHUNK {
        0
    } else if current == 0 {
        target
    } else {
        FOOD_CHUNK
    }
}

/// Random food positions: a coin picks a wide or a narrow spread (food is
/// a little sparser at the edges), then each position is uniform in the
/// chosen box.
pub fn food_positions(count: usize) -> (r: Vec<(i64, i64)>)
    ensures
        r@.len() == count,
        forall|i: int| 0 <= i < r@.len() ==> coord_ok(#[trigger] r@[i]),
        forall|i: int|
            0 <= i < r@.len() ==> -WORLD_W_MILLI / 2 <= (#[trigger] r@[i]).0 <= WORLD_W_MILLI / 2
                && -WORLD_H_MILLI / 2 <= r@[i].1 <= WORLD_H_MILLI / 2,
{
    let coin = rand_below(100);
    let (half_w, half_h): (i64, i64) = if coin <= 45 {
        (WORLD_W_MILLI / 2, WORLD_H_MILLI / 2)
    } else {
        (WORLD_W_MILLI * 2 / 5, WORLD_H_MILLI * 2 / 5)
    };
    let mut r: Vec<(i64, i64)> = Vec::new();
    let mut i: usize = 0;
    while i < count
        invariant
            i <= count,
            r@.len() == i,
            0 < half_w <= WORLD_W_MILLI / 2,
            0 < half_h <= WORLD_H_MILLI / 2,
            forall|k: int| 0 <= k < i ==> coord_ok(#[trigger] r@[k]),
            forall|k: int|
                0 <= k < i ==> -WORLD_W_MILLI / 2 <= (#[trigger] r@[k]).0 <= WORLD_W_MILLI / 2
                    && -WORLD_H_MILLI / 2 <= r@[k].1 <= WORLD_H_MILLI / 2,
        decreases count - i,
    {
        let x = rand_range_i64(-half_w, half_w);
        let y = rand_range_i64(-half_h, half_h);
        r.push((x, y));
        i = i + 1;
    }
    r
}

} // verus!

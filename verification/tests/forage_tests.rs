//! The forage index and food replenishment.

use ava::config::{FOOD_CHUNK, NUM_FOOD, WORLD_W_MILLI};
use ava::forage::{build_index, food_positions, food_spawn_count, nearest_or_origin};

#[test]
fn empty_index_falls_back_to_the_origin() {
    let idx = build_index(Vec::new());
    assert_eq!(nearest_or_origin(&idx, 40_000, -70_000), (0, 0));
}

#[test]
fn nearest_point_is_found() {
    let idx = build_index(vec![(10_000, 0), (500_000, 500_000), (-200_000, 60_000)]);
    assert_eq!(nearest_or_origin(&idx, 0, 0), (10_000, 0));
    assert_eq!(nearest_or_origin(&idx, 499_000, 499_000), (500_000, 500_000));
    assert_eq!(nearest_or_origin(&idx, -150_000, 0), (-200_000, 60_000));
}

#[test]
fn nearest_point_of_single_item_index() {
    let idx = build_index(vec![(-3_000, 4_000)]);
    assert_eq!(nearest_or_origin(&idx, 90_000, 90_000), (-3_000, 4_000));
}

#[test]
fn food_replenishes_in_chunks_and_restocks_from_empty() {
    // Stock close to the target: nothing to spawn.
    assert_eq!(food_spawn_count(NUM_FOOD - FOOD_CHUNK + 1, NUM_FOOD), 0);
    assert_eq!(food_spawn_count(NUM_FOOD, NUM_FOOD), 0);
    // Far enough down: one chunk.
    assert_eq!(food_spawn_count(NUM_FOOD - FOOD_CHUNK, NUM_FOOD), FOOD_CHUNK);
    assert_eq!(food_spawn_count(17, NUM_FOOD), FOOD_CHUNK);
    // From empty: a full restock.
    assert_eq!(food_spawn_count(0, NUM_FOOD), NUM_FOOD);
}

#[test]
fn food_positions_stay_inside_the_world() {
    let pts = food_positions(200);
    assert_eq!(pts.len(), 200);
    for (x, y) in pts {
        assert!(-WORLD_W_MILLI / 2 <= x && x <= WORLD_W_MILLI / 2);
        assert!(-WORLD_W_MILLI / 2 <= y && y <= WORLD_W_MILLI / 2);
    }
}

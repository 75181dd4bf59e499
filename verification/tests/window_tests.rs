//! The rolling fitness window: bounded history, eviction, and the mean.

use ava::config::{FITNESS_WINDOW, NEUTRAL_FITNESS_MILLI};
use ava::window::FitnessScores;

#[test]
fn empty_window_reports_neutral_fitness() {
    let w = FitnessScores::new();
    assert_eq!(w.len(), 0);
    assert_eq!(w.get_fitness(), NEUTRAL_FITNESS_MILLI);
}

#[test]
fn mean_of_partial_window() {
    let mut w = FitnessScores::new();
    w.push(1000);
    w.push(2000);
    w.push(4000);
    assert_eq!(w.len(), 3);
    // (1000 + 2000 + 4000) / 3
    assert_eq!(w.get_fitness(), 2333);
}

#[test]
fn twelve_pushes_retain_exactly_the_last_ten() {
    let mut w = FitnessScores::new();
    // Two samples that must be evicted, then ten that must stay.
    w.push(0);
    w.push(0);
    for _ in 0..FITNESS_WINDOW {
        w.push(4000);
    }
    assert_eq!(w.len(), FITNESS_WINDOW);
    // Were either of the zeros still present, the mean would be below 4000.
    assert_eq!(w.get_fitness(), 4000);
}

#[test]
fn twelve_increasing_samples_keep_the_last_ten_and_their_mean() {
    // Push 1.0, 2.0, ..., 12.0: the window keeps 3.0..=12.0 and the mean
    // is (3.0 + ... + 12.0) / 10 = 7.5.
    let mut w = FitnessScores::new();
    for v in 1..=12i64 {
        w.push(v * 1000);
    }
    assert_eq!(w.len(), FITNESS_WINDOW);
    assert_eq!(w.get_fitness(), 7_500);
}

#[test]
fn mean_recomputed_after_eviction() {
    let mut w = FitnessScores::new();
    // Fill with 3000s, then push two 1000s: window is eight 3000s + two
    // 1000s = 26000 / 10.
    for _ in 0..FITNESS_WINDOW {
        w.push(3000);
    }
    w.push(1000);
    w.push(1000);
    assert_eq!(w.len(), FITNESS_WINDOW);
    assert_eq!(w.get_fitness(), 2600);
}

#[test]
fn window_never_exceeds_bound() {
    let mut w = FitnessScores::new();
    for i in 0..100u32 {
        w.push((i % 5) as i64 * 1000);
        assert!(w.len() <= FITNESS_WINDOW);
    }
}

//! Random draws stay inside their stated ranges.

use ava::rng::{rand_below, rand_range_i64, rand_signed};

#[test]
fn draws_respect_their_ranges() {
    for _ in 0..200 {
        assert!(rand_below(10) < 10);
        let v = rand_signed(3);
        assert!(-3 <= v && v <= 3);
        let w = rand_range_i64(-7, 9);
        assert!(-7 <= w && w < 9);
    }
}

#[test]
fn degenerate_ranges_have_one_outcome() {
    assert_eq!(rand_below(1), 0);
    assert_eq!(rand_signed(0), 0);
    assert_eq!(rand_range_i64(5, 6), 5);
}

//! Clipping of segments to the canvas.

use kiss2d::wu::{clipped, fits};

#[test]
fn segment_on_the_canvas_stays() {
    assert_eq!(clipped(1, 2, 3, 4, 10, 10), Some((1, 2, 3, 4)));
    // The far borders count as on the canvas.
    assert_eq!(clipped(0, 10, 10, 0, 10, 10), Some((0, 10, 10, 0)));
}

#[test]
fn segment_with_both_ends_off_is_dropped() {
    assert_eq!(clipped(-1, 5, 11, 5, 10, 10), None);
    assert_eq!(clipped(-5, -5, -1, -1, 10, 10), None);
    assert_eq!(clipped(1, 1, 2, 2, -1, 10), None);
}

#[test]
fn first_end_is_pulled_onto_the_border() {
    assert_eq!(clipped(-10, 5, 10, 5, 20, 20), Some((0, 5, 10, 5)));
    assert_eq!(clipped(30, 30, 10, 10, 20, 20), Some((20, 20, 10, 10)));
    // Below the canvas: x moves by (x2 - x1) * (h - y1) / (y2 - y1).
    assert_eq!(clipped(4, 26, 10, 8, 20, 20), Some((6, 20, 10, 8)));
    // Above the canvas.
    assert_eq!(clipped(4, -9, 10, 9, 20, 20), Some((7, 0, 10, 9)));
}

#[test]
fn second_end_is_pulled_onto_the_border() {
    assert_eq!(clipped(10, 5, -10, 5, 20, 20), Some((10, 5, 0, 5)));
    assert_eq!(clipped(10, 8, 4, 26, 20, 20), Some((10, 8, 6, 20)));
    assert_eq!(clipped(5, 5, 45, 15, 20, 20), Some((5, 5, 20, 9)));
}

#[test]
fn both_borders_in_turn() {
    // Onto the lower border first, which leaves x at 30, then onto the right
    // border.
    assert_eq!(clipped(50, 30, 10, 10, 20, 20), Some((20, 15, 10, 10)));
    assert_eq!(clipped(30, 40, 10, 10, 20, 20), Some((17, 20, 10, 10)));
    assert_eq!(clipped(-30, 40, 19, 19, 20, 20), Some((16, 20, 19, 19)));
}

#[test]
fn shares_round_toward_zero() {
    // (10 - 0) * (0 - (-1)) / (2 - (-1)) = 3.33
    assert_eq!(clipped(0, -1, 10, 2, 20, 20), Some((3, 0, 10, 2)));
    // (0 - 10) * (0 - (-1)) / (2 - (-1)) = -3.33
    assert_eq!(clipped(10, -1, 0, 2, 20, 20), Some((7, 0, 0, 2)));
}

#[test]
fn coordinates_at_the_limit() {
    let m = isize::MAX / 2;
    assert!(fits(m) && fits(-m) && !fits(m + 1) && !fits(-m - 1));
    assert_eq!(clipped(-m, -m, m, m, m, m), Some((0, 0, m, m)));
    assert_eq!(clipped(m, 0, 0, m, 10, m), Some((10, m - 10, 0, m)));
    assert_eq!(clipped(-m, m, 0, 0, m, m), Some((0, 0, 0, 0)));
}

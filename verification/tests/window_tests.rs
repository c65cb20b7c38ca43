use rolling_extrema::bitmap::Bitmap;
use rolling_extrema::float_bits::FloatBits;
use rolling_extrema::order::Direction;
use rolling_extrema::window::MinMaxWindow;

fn fb(x: f64) -> FloatBits {
    FloatBits(x.to_bits())
}

fn number(x: Option<FloatBits>) -> Option<f64> {
    x.map(|v| f64::from_bits(v.0))
}

#[test]
fn min_over_window_with_nan_sentinel() {
    let values = vec![fb(5.0), fb(f64::NAN), fb(1.0), fb(1.0), fb(9.0)];
    let validity = Bitmap::new(vec![true; 5]);
    let mut window = MinMaxWindow::new(Direction::Min, &values, &validity, 0, 3);
    let mut out = Vec::new();
    for (start, end) in [(0usize, 3usize), (1, 4), (2, 5)] {
        let m = window.update(start, end);
        assert!(window.is_valid(1));
        out.push(number(m));
    }
    assert_eq!(out, vec![Some(1.0), Some(1.0), Some(1.0)]);
}

#[test]
fn max_over_window_with_nan_sentinel() {
    let values = vec![fb(5.0), fb(f64::NAN), fb(1.0), fb(1.0), fb(9.0)];
    let validity = Bitmap::new(vec![true; 5]);
    let mut window = MinMaxWindow::new(Direction::Max, &values, &validity, 0, 3);
    let mut out = Vec::new();
    for (start, end) in [(0usize, 3usize), (1, 4), (2, 5)] {
        out.push(number(window.update(start, end)));
    }
    assert_eq!(out, vec![Some(5.0), Some(1.0), Some(9.0)]);
}

#[test]
fn window_of_sentinels_only_reports_the_sentinel() {
    let values = vec![fb(f64::NAN), fb(f64::NAN), fb(2.0)];
    let validity = Bitmap::new(vec![true; 3]);
    let mut window = MinMaxWindow::new(Direction::Min, &values, &validity, 0, 2);
    let m = window.update(0, 2);
    assert!(number(m).unwrap().is_nan());
    assert_eq!(number(window.update(1, 3)), Some(2.0));
}

#[test]
fn all_null_window_is_absent() {
    let values: Vec<i64> = vec![4, 5, 6];
    let validity = Bitmap::new(vec![false, false, false]);
    let mut window = MinMaxWindow::new(Direction::Min, &values, &validity, 0, 3);
    assert!(!window.is_valid(1));
    assert_eq!(window.update(0, 3), None);
    assert!(!window.is_valid(1));
    assert!(window.is_valid(0));
    let mut window = MinMaxWindow::new(Direction::Max, &values, &validity, 0, 3);
    assert_eq!(window.update(0, 3), None);
    assert!(!window.is_valid(1));
}

#[test]
fn disjoint_window_matches_fresh_start() {
    let values: Vec<i64> = vec![3, 1, 4, 1, 5, 9, 2, 6];
    let validity = Bitmap::new(vec![true; 8]);
    for direction in [Direction::Min, Direction::Max] {
        let mut jumped = MinMaxWindow::new(direction, &values, &validity, 0, 2);
        jumped.update(0, 2);
        let after_jump = jumped.update(5, 7);
        let mut fresh = MinMaxWindow::new(direction, &values, &validity, 5, 7);
        let from_start = fresh.update(5, 7);
        assert_eq!(after_jump, from_start);
        assert_eq!(jumped.is_valid(2), fresh.is_valid(2));
        assert_eq!(jumped.is_valid(3), fresh.is_valid(3));
        // Both go on alike.
        assert_eq!(jumped.update(6, 8), fresh.update(6, 8));
    }
    let mut jumped = MinMaxWindow::new(Direction::Min, &values, &validity, 0, 2);
    assert_eq!(jumped.update(5, 7), Some(2));
    let mut jumped = MinMaxWindow::new(Direction::Max, &values, &validity, 0, 2);
    assert_eq!(jumped.update(5, 7), Some(9));
}

#[test]
fn disjoint_window_ignores_a_better_previous_extremum() {
    let values: Vec<i64> = vec![0, 0, 7, 7, 7, 8, 9];
    let validity = Bitmap::new(vec![true; 7]);
    let mut window = MinMaxWindow::new(Direction::Min, &values, &validity, 0, 2);
    assert_eq!(window.update(0, 2), Some(0));
    assert_eq!(window.update(5, 7), Some(8));
}

#[test]
fn nulls_in_a_gap_between_windows_are_not_counted() {
    let values: Vec<i64> = vec![1, 2, 0, 0, 0, 6, 7, 8];
    let validity = Bitmap::new(vec![true, true, false, false, false, true, false, true]);
    let mut window = MinMaxWindow::new(Direction::Min, &values, &validity, 0, 2);
    assert!(window.is_valid(2));
    assert_eq!(window.update(5, 7), Some(6));
    // One present entry and one null in [5, 7).
    assert!(window.is_valid(1));
    assert!(!window.is_valid(2));
    assert_eq!(window.update(6, 8), Some(8));
    assert!(window.is_valid(1));
    assert!(!window.is_valid(2));
}

#[test]
fn sorted_input_min() {
    let values: Vec<i64> = vec![1, 2, 3, 4, 5, 6];
    let validity = Bitmap::new(vec![true; 6]);
    let mut window = MinMaxWindow::new(Direction::Min, &values, &validity, 0, 3);
    let mut out = Vec::new();
    for (start, end) in [(0usize, 3usize), (1, 4), (2, 5), (3, 6)] {
        out.push(window.update(start, end));
    }
    assert_eq!(out, vec![Some(1), Some(2), Some(3), Some(4)]);
}

#[test]
fn sorted_input_max() {
    let values: Vec<i64> = vec![1, 2, 3, 4, 5, 6];
    let validity = Bitmap::new(vec![true; 6]);
    let mut window = MinMaxWindow::new(Direction::Max, &values, &validity, 0, 3);
    let mut out = Vec::new();
    for (start, end) in [(0usize, 3usize), (1, 4), (2, 5), (3, 6)] {
        out.push(window.update(start, end));
    }
    assert_eq!(out, vec![Some(3), Some(4), Some(5), Some(6)]);
}

#[test]
fn extremum_leaving_at_the_front_is_replaced() {
    let values: Vec<i64> = vec![1, 5, 4, 3, 9];
    let validity = Bitmap::new(vec![true; 5]);
    let mut window = MinMaxWindow::new(Direction::Min, &values, &validity, 0, 3);
    assert_eq!(window.update(0, 3), Some(1));
    // 1 leaves; the overlap [1, 3) holds 5 and 4, the entering 3 beats neither 1.
    assert_eq!(window.update(1, 4), Some(3));
    assert_eq!(window.update(2, 5), Some(3));
    assert_eq!(window.update(3, 5), Some(3));
    assert_eq!(window.update(4, 5), Some(9));
}

#[test]
fn extremum_leaving_with_nothing_entering() {
    let values: Vec<i64> = vec![1, 5, 4];
    let validity = Bitmap::new(vec![true; 3]);
    let mut window = MinMaxWindow::new(Direction::Min, &values, &validity, 0, 3);
    assert_eq!(window.update(1, 3), Some(4));
    assert_eq!(window.update(2, 3), Some(4));
    assert!(window.is_valid(1));
    assert!(!window.is_valid(2));
}

#[test]
fn empty_window_behind_the_previous_reports_nothing() {
    let values: Vec<i64> = vec![1, 5, 4];
    let validity = Bitmap::new(vec![true; 3]);
    let mut window = MinMaxWindow::new(Direction::Min, &values, &validity, 2, 3);
    assert_eq!(window.update(2, 3), Some(4));
    assert_eq!(window.update(3, 3), None);
    assert!(!window.is_valid(1));
    assert!(window.is_valid(0));
}

#[test]
fn jump_onto_an_all_null_window_forgets_the_minimum() {
    let values: Vec<i32> = vec![1, 2, 0, 0, 0, 9, 8];
    let validity = Bitmap::new(vec![true, true, true, true, true, false, false]);
    let mut window = MinMaxWindow::new(Direction::Min, &values, &validity, 0, 2);
    assert_eq!(window.update(0, 2), Some(1));
    assert_eq!(window.update(5, 7), None);
    assert!(!window.is_valid(1));
    assert!(window.is_valid(0));
    let mut fresh = MinMaxWindow::new(Direction::Min, &values, &validity, 5, 7);
    assert_eq!(fresh.update(5, 7), None);
    assert!(!fresh.is_valid(1));
}

#[test]
fn jump_onto_an_all_null_window_forgets_the_maximum() {
    let values: Vec<i32> = vec![9, 8, 0, 0, 0, 1, 2];
    let validity = Bitmap::new(vec![true, true, true, true, true, false, false]);
    let mut window = MinMaxWindow::new(Direction::Max, &values, &validity, 0, 2);
    assert_eq!(window.update(0, 2), Some(9));
    assert_eq!(window.update(5, 7), None);
    assert!(!window.is_valid(1));
}

#[test]
fn window_finds_an_extremum_again_after_a_jump_onto_nulls() {
    let values: Vec<i64> = vec![1, 0, 0, 7, 3, 5];
    let validity = Bitmap::new(vec![true, false, false, true, true, true]);
    let mut window = MinMaxWindow::new(Direction::Min, &values, &validity, 0, 1);
    assert_eq!(window.update(0, 1), Some(1));
    assert_eq!(window.update(1, 3), None);
    assert_eq!(window.update(2, 4), Some(7));
    assert_eq!(window.update(3, 6), Some(3));
    assert_eq!(window.update(5, 6), Some(5));
    assert_eq!(window.update(6, 6), None);
}

#[test]
fn window_shrinking_to_nulls_only() {
    let values: Vec<i64> = vec![1, 0, 0];
    let validity = Bitmap::new(vec![true, false, false]);
    let mut window = MinMaxWindow::new(Direction::Min, &values, &validity, 0, 3);
    assert_eq!(window.update(0, 3), Some(1));
    assert!(window.is_valid(1));
    assert_eq!(window.update(1, 3), None);
    assert!(!window.is_valid(1));
}

#[test]
fn growing_window() {
    let values: Vec<i64> = vec![5, 3, 8, 1];
    let validity = Bitmap::new(vec![true; 4]);
    let mut window = MinMaxWindow::new(Direction::Min, &values, &validity, 0, 0);
    assert_eq!(window.update(0, 0), None);
    assert_eq!(window.update(0, 1), Some(5));
    assert_eq!(window.update(0, 2), Some(3));
    assert_eq!(window.update(0, 3), Some(3));
    assert_eq!(window.update(0, 4), Some(1));
    let mut window = MinMaxWindow::new(Direction::Max, &values, &validity, 0, 0);
    assert_eq!(window.update(0, 1), Some(5));
    assert_eq!(window.update(0, 2), Some(5));
    assert_eq!(window.update(0, 3), Some(8));
    assert_eq!(window.update(0, 4), Some(8));
}

#[test]
fn is_valid_counts_present_entries() {
    let values: Vec<i64> = vec![1, 2, 3, 4, 5];
    let validity = Bitmap::new(vec![true, false, true, false, false]);
    let mut window = MinMaxWindow::new(Direction::Min, &values, &validity, 0, 3);
    // Two present entries in [0, 3).
    assert!(window.is_valid(0));
    assert!(window.is_valid(2));
    assert!(!window.is_valid(3));
    window.update(1, 4);
    // One present entry in [1, 4).
    assert!(window.is_valid(1));
    assert!(!window.is_valid(2));
    window.update(3, 5);
    // None in [3, 5).
    assert!(window.is_valid(0));
    assert!(!window.is_valid(1));
}

#[test]
fn null_window_reports_nothing() {
    // Whether or not it shares an entry with the window before it.
    let values: Vec<i64> = vec![5, 0];
    let validity = Bitmap::new(vec![true, false]);
    let mut window = MinMaxWindow::new(Direction::Min, &values, &validity, 0, 1);
    assert_eq!(window.update(0, 1), Some(5));
    assert_eq!(window.update(1, 2), None);
    assert!(!window.is_valid(1));
    let mut window = MinMaxWindow::new(Direction::Min, &values, &validity, 0, 2);
    assert_eq!(window.update(0, 2), Some(5));
    assert_eq!(window.update(1, 2), None);
    assert!(!window.is_valid(1));
}

#[test]
fn window_recovers_after_an_all_null_stretch() {
    let values: Vec<i64> = vec![5, 0, 0, 7, 6];
    let validity = Bitmap::new(vec![true, false, false, true, true]);
    let mut window = MinMaxWindow::new(Direction::Min, &values, &validity, 0, 1);
    assert_eq!(window.update(0, 1), Some(5));
    window.update(1, 2);
    assert!(!window.is_valid(1));
    window.update(1, 3);
    assert!(!window.is_valid(1));
    assert_eq!(window.update(1, 3), None);
    assert_eq!(window.update(2, 4), Some(7));
    assert_eq!(window.update(3, 5), Some(6));
    assert!(window.is_valid(2));
}

#[test]
fn ties_keep_the_value() {
    let values: Vec<i64> = vec![2, 2, 2, 2];
    let validity = Bitmap::new(vec![true; 4]);
    let mut window = MinMaxWindow::new(Direction::Min, &values, &validity, 0, 2);
    assert_eq!(window.update(0, 2), Some(2));
    assert_eq!(window.update(1, 3), Some(2));
    assert_eq!(window.update(2, 4), Some(2));
}

#[test]
fn later_of_two_zeros_is_reported_at_the_start() {
    // Both zeros tie; the later one is the extremum of the first window.
    let values = vec![fb(0.0), fb(-0.0), fb(3.0)];
    let validity = Bitmap::new(vec![true; 3]);
    let mut window = MinMaxWindow::new(Direction::Min, &values, &validity, 0, 3);
    let m = window.update(0, 3).unwrap();
    assert_eq!(m.0, (-0.0f64).to_bits());
    let values = vec![fb(-0.0), fb(0.0), fb(3.0)];
    let mut window = MinMaxWindow::new(Direction::Min, &values, &validity, 0, 3);
    let m = window.update(0, 3).unwrap();
    assert_eq!(m.0, (0.0f64).to_bits());
}

#[test]
fn sorted_run_is_not_scanned_again() {
    // Behind the extremum at 0 the values never drop, so when it leaves, the
    // first entry of what is left is taken without a look at the others: it
    // is the first of the two zeros, not the last.
    let values = vec![fb(-1.0), fb(0.0), fb(-0.0), fb(9.0)];
    let validity = Bitmap::new(vec![true; 4]);
    let mut window = MinMaxWindow::new(Direction::Min, &values, &validity, 0, 3);
    assert_eq!(window.update(0, 3), Some(fb(-1.0)));
    assert_eq!(window.update(1, 4), Some(fb(0.0)));
    // A pass that starts at [1, 4) scans all of it and takes the last zero.
    let mut fresh = MinMaxWindow::new(Direction::Min, &values, &validity, 1, 4);
    assert_eq!(fresh.update(1, 4), Some(fb(-0.0)));
}

#[test]
fn broken_run_is_scanned_again() {
    // The 2 at index 2 breaks the run behind the extremum at 0: it is found
    // when the extremum leaves.
    let values: Vec<i64> = vec![1, 5, 2, 9, 9, 9];
    let validity = Bitmap::new(vec![true; 6]);
    let mut window = MinMaxWindow::new(Direction::Min, &values, &validity, 0, 4);
    assert_eq!(window.update(0, 4), Some(1));
    assert_eq!(window.update(1, 5), Some(2));
    assert_eq!(window.update(2, 6), Some(2));
    assert_eq!(window.update(3, 6), Some(9));
}

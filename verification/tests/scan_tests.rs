use rolling_extrema::bitmap::Bitmap;
use rolling_extrema::order::Direction;
use rolling_extrema::scan::{init_get_m_m_idx_and_null_count, n_sorted_past};

#[test]
fn sorted_run_for_min_stops_at_first_drop() {
    let values: Vec<i64> = vec![1, 2, 2, 1, 5];
    let validity = Bitmap::new(vec![true; 5]);
    assert_eq!(n_sorted_past(Direction::Min, &values, &validity, 0), 3);
    assert_eq!(n_sorted_past(Direction::Min, &values, &validity, 1), 3);
    assert_eq!(n_sorted_past(Direction::Min, &values, &validity, 2), 3);
    assert_eq!(n_sorted_past(Direction::Min, &values, &validity, 3), 4);
    assert_eq!(n_sorted_past(Direction::Min, &values, &validity, 4), 4);
}

#[test]
fn sorted_run_for_max_stops_at_first_rise() {
    let values: Vec<i64> = vec![9, 7, 7, 8, 1];
    let validity = Bitmap::new(vec![true; 5]);
    assert_eq!(n_sorted_past(Direction::Max, &values, &validity, 0), 3);
    assert_eq!(n_sorted_past(Direction::Max, &values, &validity, 3), 4);
}

#[test]
fn sorted_run_without_a_break_ends_at_the_last_index() {
    let values: Vec<i64> = vec![1, 2, 3, 4, 5, 6];
    let validity = Bitmap::new(vec![true; 6]);
    assert_eq!(n_sorted_past(Direction::Min, &values, &validity, 0), 5);
    assert_eq!(n_sorted_past(Direction::Min, &values, &validity, 5), 5);
    let falling: Vec<i64> = vec![6, 5, 4];
    let validity = Bitmap::new(vec![true; 3]);
    assert_eq!(n_sorted_past(Direction::Max, &falling, &validity, 0), 2);
}

#[test]
fn sorted_run_skips_nulls_and_keeps_the_last_present_value() {
    // The 0 at index 2 is null: the run goes on from 3 to 4 and breaks at the 2.
    let values: Vec<i64> = vec![1, 3, 0, 4, 2];
    let validity = Bitmap::new(vec![true, true, false, true, true]);
    assert_eq!(n_sorted_past(Direction::Min, &values, &validity, 0), 4);
    // A null is compared with nothing, so a drop hidden behind it is not seen.
    let values: Vec<i64> = vec![5, 1, 6];
    let validity = Bitmap::new(vec![true, false, true]);
    assert_eq!(n_sorted_past(Direction::Min, &values, &validity, 0), 2);
}

#[test]
fn sorted_run_breaks_at_the_last_index() {
    let values: Vec<i64> = vec![1, 2, 0];
    let validity = Bitmap::new(vec![true; 3]);
    assert_eq!(n_sorted_past(Direction::Min, &values, &validity, 0), 2);
}

#[test]
fn range_scan_finds_min_and_counts_nulls() {
    let values: Vec<i64> = vec![7, 3, 9, 1, 4];
    let validity = Bitmap::new(vec![true, true, false, false, true]);
    let r = init_get_m_m_idx_and_null_count(Direction::Min, &values, &validity, 0, 5, 0);
    assert_eq!(r, (Some((1, 3)), 2));
    let r = init_get_m_m_idx_and_null_count(Direction::Max, &values, &validity, 0, 5, 0);
    assert_eq!(r, (Some((0, 7)), 2));
    let r = init_get_m_m_idx_and_null_count(Direction::Max, &values, &validity, 2, 5, 0);
    assert_eq!(r, (Some((4, 4)), 2));
}

#[test]
fn range_scan_of_all_null_range() {
    let values: Vec<i64> = vec![7, 3, 9];
    let validity = Bitmap::new(vec![false, false, true]);
    let r = init_get_m_m_idx_and_null_count(Direction::Min, &values, &validity, 0, 2, 0);
    assert_eq!(r, (None, 2));
}

#[test]
fn range_scan_of_empty_range() {
    let values: Vec<i64> = vec![7, 3, 9];
    let validity = Bitmap::new(vec![true, true, true]);
    let r = init_get_m_m_idx_and_null_count(Direction::Min, &values, &validity, 1, 1, 0);
    assert_eq!(r, (None, 0));
    let r = init_get_m_m_idx_and_null_count(Direction::Min, &values, &validity, 3, 3, 0);
    assert_eq!(r, (None, 0));
}

#[test]
fn range_scan_prefers_the_later_of_equal_values() {
    let values: Vec<i64> = vec![2, 1, 1, 1, 3];
    let validity = Bitmap::new(vec![true; 5]);
    let r = init_get_m_m_idx_and_null_count(Direction::Min, &values, &validity, 0, 5, 0);
    assert_eq!(r, (Some((3, 1)), 0));
    let values: Vec<i64> = vec![4, 4, 1, 4, 3];
    let r = init_get_m_m_idx_and_null_count(Direction::Max, &values, &validity, 0, 5, 0);
    assert_eq!(r, (Some((3, 4)), 0));
}

#[test]
fn range_scan_inside_a_sorted_run_takes_the_first_present_entry() {
    let values: Vec<i64> = vec![1, 1, 1, 1, 1];
    let validity = Bitmap::new(vec![true, false, true, true, true]);
    // Sorted up to the end of the range: nothing is compared.
    let r = init_get_m_m_idx_and_null_count(Direction::Min, &values, &validity, 1, 4, 4);
    assert_eq!(r, (Some((2, 1)), 1));
    let r = init_get_m_m_idx_and_null_count(Direction::Min, &values, &validity, 1, 4, 9);
    assert_eq!(r, (Some((2, 1)), 1));
    // Sorted up to index 3 only: the entries from 3 on are compared.
    let r = init_get_m_m_idx_and_null_count(Direction::Min, &values, &validity, 1, 5, 3);
    assert_eq!(r, (Some((4, 1)), 1));
}

#[test]
fn range_scan_skips_what_lies_before_sorted_to() {
    // The caller vouches for the order up to `sorted_to`; the scan does not look there.
    let values: Vec<i64> = vec![5, 0, 7, 6];
    let validity = Bitmap::new(vec![true; 4]);
    let r = init_get_m_m_idx_and_null_count(Direction::Min, &values, &validity, 0, 4, 2);
    assert_eq!(r, (Some((0, 5)), 0));
    let r = init_get_m_m_idx_and_null_count(Direction::Min, &values, &validity, 0, 4, 0);
    assert_eq!(r, (Some((1, 0)), 0));
}

use rolling_extrema::bitmap::Bitmap;
use rolling_extrema::float_bits::FloatBits;
use rolling_extrema::native::NativeType;
use rolling_extrema::order::{
    compare_fn_nan_max, compare_fn_nan_min, new_is_max, new_is_min, Direction,
};
use std::cmp::Ordering;

fn fb(x: f64) -> FloatBits {
    FloatBits(x.to_bits())
}

#[test]
fn integers_are_never_the_sentinel() {
    assert!(!7i64.is_nan());
    assert!(!0u8.is_nan());
    assert!(!(-1i128).is_nan());
}

#[test]
fn integers_compare_by_value() {
    assert!(3i64.less_than(&4));
    assert!(!4i64.less_than(&3));
    assert!(!4i64.less_than(&4));
    assert!((-5i8).less_than(&-4));
    assert!(200u8.less_than(&201));
    assert!(i128::MIN.less_than(&i128::MAX));
    assert!(0u64.less_than(&u64::MAX));
    assert!((-1i16).less_than(&0));
    assert!(1u16.less_than(&2));
    assert!((-7i32).less_than(&7));
    assert!(7u32.less_than(&8));
}

#[test]
fn float_bits_detect_nan() {
    assert!(fb(f64::NAN).is_nan());
    assert!(fb(-f64::NAN).is_nan());
    assert!(!fb(f64::INFINITY).is_nan());
    assert!(!fb(f64::NEG_INFINITY).is_nan());
    assert!(!fb(0.0).is_nan());
    assert!(!fb(-0.0).is_nan());
    assert!(!fb(1.5).is_nan());
    assert!(!fb(f64::MAX).is_nan());
    assert!(!fb(f64::MIN_POSITIVE).is_nan());
}

#[test]
fn float_bits_order_like_the_numbers() {
    let xs = [
        f64::NEG_INFINITY,
        f64::MIN,
        -1.0e10,
        -2.5,
        -1.0,
        -f64::MIN_POSITIVE,
        -0.0,
        0.0,
        f64::MIN_POSITIVE,
        0.5,
        1.0,
        3.25,
        1.0e300,
        f64::MAX,
        f64::INFINITY,
    ];
    for a in xs.iter() {
        for b in xs.iter() {
            assert_eq!(fb(*a).less_than(&fb(*b)), a < b, "{} < {}", a, b);
        }
    }
}

#[test]
fn float_zeros_tie() {
    assert!(!fb(-0.0).less_than(&fb(0.0)));
    assert!(!fb(0.0).less_than(&fb(-0.0)));
    assert_eq!(compare_fn_nan_min(&fb(-0.0), &fb(0.0)), Ordering::Equal);
    assert_eq!(compare_fn_nan_max(&fb(0.0), &fb(-0.0)), Ordering::Equal);
}

#[test]
fn min_order_puts_the_sentinel_last() {
    assert_eq!(compare_fn_nan_min(&fb(f64::NAN), &fb(1.0)), Ordering::Greater);
    assert_eq!(compare_fn_nan_min(&fb(1.0), &fb(f64::NAN)), Ordering::Less);
    assert_eq!(compare_fn_nan_min(&fb(f64::NAN), &fb(f64::INFINITY)), Ordering::Greater);
    assert_eq!(compare_fn_nan_min(&fb(f64::NAN), &fb(f64::NAN)), Ordering::Equal);
    assert_eq!(compare_fn_nan_min(&fb(1.0), &fb(2.0)), Ordering::Less);
    assert_eq!(compare_fn_nan_min(&fb(2.0), &fb(1.0)), Ordering::Greater);
    assert_eq!(compare_fn_nan_min(&fb(2.0), &fb(2.0)), Ordering::Equal);
}

#[test]
fn max_order_puts_the_sentinel_first() {
    assert_eq!(compare_fn_nan_max(&fb(f64::NAN), &fb(1.0)), Ordering::Less);
    assert_eq!(compare_fn_nan_max(&fb(1.0), &fb(f64::NAN)), Ordering::Greater);
    assert_eq!(compare_fn_nan_max(&fb(f64::NAN), &fb(f64::NEG_INFINITY)), Ordering::Less);
    assert_eq!(compare_fn_nan_max(&fb(f64::NAN), &fb(f64::NAN)), Ordering::Equal);
    assert_eq!(compare_fn_nan_max(&fb(1.0), &fb(2.0)), Ordering::Less);
    assert_eq!(compare_fn_nan_max(&fb(2.0), &fb(1.0)), Ordering::Greater);
}

#[test]
fn integer_three_way_comparison() {
    assert_eq!(compare_fn_nan_min(&1i64, &2i64), Ordering::Less);
    assert_eq!(compare_fn_nan_min(&2i64, &2i64), Ordering::Equal);
    assert_eq!(compare_fn_nan_min(&3i64, &2i64), Ordering::Greater);
    assert_eq!(compare_fn_nan_max(&1u8, &2u8), Ordering::Less);
    assert_eq!(compare_fn_nan_max(&2u8, &2u8), Ordering::Equal);
    assert_eq!(compare_fn_nan_max(&3u8, &2u8), Ordering::Greater);
}

#[test]
fn new_is_min_replaces_on_smaller_or_tie() {
    assert!(new_is_min(&5i64, &4i64));
    assert!(new_is_min(&5i64, &5i64));
    assert!(!new_is_min(&5i64, &6i64));
    assert!(new_is_min(&fb(f64::NAN), &fb(3.0)));
    assert!(!new_is_min(&fb(3.0), &fb(f64::NAN)));
    assert!(new_is_min(&fb(f64::NAN), &fb(f64::NAN)));
}

#[test]
fn new_is_max_replaces_on_larger_or_tie() {
    assert!(new_is_max(&5i64, &6i64));
    assert!(new_is_max(&5i64, &5i64));
    assert!(!new_is_max(&5i64, &4i64));
    assert!(new_is_max(&fb(f64::NAN), &fb(-3.0)));
    assert!(!new_is_max(&fb(-3.0), &fb(f64::NAN)));
    assert!(new_is_max(&fb(f64::NAN), &fb(f64::NAN)));
}

#[test]
fn direction_replaces_and_breaks_run() {
    assert!(Direction::Min.replaces(&5i64, &5i64));
    assert!(Direction::Min.replaces(&5i64, &1i64));
    assert!(!Direction::Min.replaces(&5i64, &9i64));
    assert!(Direction::Max.replaces(&5i64, &9i64));
    assert!(!Direction::Max.replaces(&5i64, &1i64));
    // A run for the minimum breaks where a value drops below the one before it.
    assert!(Direction::Min.breaks_run(&5i64, &4i64));
    assert!(!Direction::Min.breaks_run(&5i64, &5i64));
    assert!(!Direction::Min.breaks_run(&5i64, &6i64));
    // A run for the maximum breaks where a value rises above the one before it.
    assert!(Direction::Max.breaks_run(&5i64, &6i64));
    assert!(!Direction::Max.breaks_run(&5i64, &5i64));
    assert!(!Direction::Max.breaks_run(&5i64, &4i64));
}

#[test]
fn bitmap_reads_bits_and_counts_nulls() {
    let bitmap = Bitmap::new(vec![true, false, false, true, false]);
    assert_eq!(bitmap.len(), 5);
    assert!(bitmap.get_bit(0));
    assert!(!bitmap.get_bit(1));
    assert!(bitmap.get_bit(3));
    assert_eq!(bitmap.null_count_range(0, 5), 3);
    assert_eq!(bitmap.null_count_range(1, 2), 2);
    assert_eq!(bitmap.null_count_range(3, 1), 0);
    assert_eq!(bitmap.null_count_range(4, 1), 1);
    assert_eq!(bitmap.null_count_range(2, 0), 0);
    assert_eq!(bitmap.null_count_range(5, 0), 0);
}

#[test]
fn empty_bitmap() {
    let bitmap = Bitmap::new(Vec::new());
    assert_eq!(bitmap.len(), 0);
    assert_eq!(bitmap.null_count_range(0, 0), 0);
}

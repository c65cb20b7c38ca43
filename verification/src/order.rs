//! The two directions of search and the total order each of them uses.

use crate::native::NativeType;
use core::cmp::Ordering;
use vstd::prelude::*;

verus! {

/// Which extremum a window looks for.
#[derive(Clone, Copy, Debug, PartialEq, Eq)]
pub enum Direction {
    /// The smallest value wins; the not-a-number sentinel is larger than every number.
    Min,
    /// The largest value wins; the not-a-number sentinel is smaller than every number.
    Max,
}

/// `a` is at least as good a candidate as `b`: it wins against `b` or ties with it.
///
/// For either direction this is a total preorder in which the sentinel comes last.
pub open spec fn precedes<T: NativeType>(direction: Direction, a: T, b: T) -> bool {
    if a.nan() {
        b.nan()
    } else if b.nan() {
        true
    } else {
        match direction {
            Direction::Min => a.rank() <= b.rank(),
            Direction::Max => a.rank() >= b.rank(),
        }
    }
}

/// Two values that neither wins against the other.
pub open spec fn ties<T: NativeType>(a: T, b: T) -> bool {
    if a.nan() {
        b.nan()
    } else {
        !b.nan() && a.rank() == b.rank()
    }
}

/// The order used when searching a minimum: numbers by rank, the sentinel after all of them.
pub open spec fn nan_min_order<T: NativeType>(a: T, b: T) -> Ordering {
    if a.nan() && b.nan() {
        Ordering::Equal
    } else if a.nan() {
        Ordering::Greater
    } else if b.nan() {
        Ordering::Less
    } else if a.rank() < b.rank() {
        Ordering::Less
    } else if b.rank() < a.rank() {
        Ordering::Greater
    } else {
        Ordering::Equal
    }
}

/// The order used when searching a maximum: numbers by rank, the sentinel before all of them.
pub open spec fn nan_max_order<T: NativeType>(a: T, b: T) -> Ordering {
    if a.nan() && b.nan() {
        Ordering::Equal
    } else if a.nan() {
        Ordering::Less
    } else if b.nan() {
        Ordering::Greater
    } else if a.rank() < b.rank() {
        Ordering::Less
    } else if b.rank() < a.rank() {
        Ordering::Greater
    } else {
        Ordering::Equal
    }
}

/// Three-way comparison for a minimum search.
pub fn compare_fn_nan_min<T: NativeType>(a: &T, b: &T) -> (o: Ordering)
    ensures
        o == nan_min_order(*a, *b),
{
    match (a.is_nan(), b.is_nan()) {
        (true, true) => Ordering::Equal,
        (true, false) => Ordering::Greater,
        (false, true) => Ordering::Less,
        (false, false) => {
            if a.less_than(b) {
                Ordering::Less
            } else if b.less_than(a) {
                Ordering::Greater
            } else {
                Ordering::Equal
            }
        },
    }
}

/// Three-way comparison for a maximum search.
pub fn compare_fn_nan_max<T: NativeType>(a: &T, b: &T) -> (o: Ordering)
    ensures
        o == nan_max_order(*a, *b),
{
    match (a.is_nan(), b.is_nan()) {
        (true, true) => Ordering::Equal,
        (true, false) => Ordering::Less,
        (false, true) => Ordering::Greater,
        (false, false) => {
            if a.less_than(b) {
                Ordering::Less
            } else if b.less_than(a) {
                Ordering::Greater
            } else {
                Ordering::Equal
            }
        },
    }
}

/// Whether `new` replaces `old` as the minimum: it is smaller, or ties with it.
pub fn new_is_min<T: NativeType>(old: &T, new: &T) -> (r: bool)
    ensures
        r == precedes(Direction::Min, *new, *old),
{
    match compare_fn_nan_min(old, new) {
        Ordering::Less => false,
        Ordering::Equal => true,
        Ordering::Greater => true,
    }
}

/// Whether `new` replaces `old` as the maximum: it is larger, or ties with it.
pub fn new_is_max<T: NativeType>(old: &T, new: &T) -> (r: bool)
    ensures
        r == precedes(Direction::Max, *new, *old),
{
    match compare_fn_nan_max(old, new) {
        Ordering::Less => true,
        Ordering::Equal => true,
        Ordering::Greater => false,
    }
}

impl Direction {
    /// Whether `new` takes the place of `old` as the extremum. A tie replaces.
    pub fn replaces<T: NativeType>(&self, old: &T, new: &T) -> (r: bool)
        ensures
            r == precedes(*self, *new, *old),
    {
        match self {
            Direction::Min => new_is_min(old, new),
            Direction::Max => new_is_max(old, new),
        }
    }

    /// Whether `val`, coming after `last`, ends a sorted run: it wins against `last` outright.
    pub fn breaks_run<T: NativeType>(&self, last: &T, val: &T) -> (r: bool)
        ensures
            r == !precedes(*self, *last, *val),
    {
        match self {
            Direction::Min => match compare_fn_nan_min(last, val) {
                Ordering::Greater => true,
                _ => false,
            },
            Direction::Max => match compare_fn_nan_max(last, val) {
                Ordering::Less => true,
                _ => false,
            },
        }
    }
}

} // verus!

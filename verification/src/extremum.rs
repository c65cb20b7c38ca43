//! What it means to be the extremum of a window.

use crate::bitmap::all_null;
use crate::native::NativeType;
use crate::order::{precedes, ties, Direction};
use vstd::prelude::*;

verus! {

/// The entry at `at` is present, lies in `[start, end)`, and no present entry
/// of that range wins against it outright.
pub open spec fn is_extremum_at<T: NativeType>(
    direction: Direction,
    values: Seq<T>,
    validity: Seq<bool>,
    start: int,
    end: int,
    at: int,
) -> bool {
    &&& start <= at < end
    &&& validity[at]
    &&& forall|j: int|
        start <= j < end && validity[j] ==> precedes(direction, values[at], #[trigger] values[j])
}

/// `r` is the extremum of the window `[start, end)`: absent if the window holds
/// no present entry, else the value of an entry that is an extremum of it.
pub open spec fn is_extremum_of<T: NativeType>(
    direction: Direction,
    values: Seq<T>,
    validity: Seq<bool>,
    start: int,
    end: int,
    r: Option<T>,
) -> bool {
    match r {
        None => all_null(validity, start, end),
        Some(v) => exists|at: int|
            #[trigger] is_extremum_at(direction, values, validity, start, end, at) && values[at]
                == v,
    }
}

/// The entry at `at` is an extremum of `[start, end)` and the last of those
/// that are equally good.
pub open spec fn is_last_extremum_at<T: NativeType>(
    direction: Direction,
    values: Seq<T>,
    validity: Seq<bool>,
    start: int,
    end: int,
    at: int,
) -> bool {
    &&& is_extremum_at(direction, values, validity, start, end, at)
    &&& forall|k: int|
        at < k < end && validity[k] ==> !precedes(direction, #[trigger] values[k], values[at])
}

/// The extremum of `[start, end)` as a plain scan from front to back finds it:
/// each present entry replaces the best so far if it wins or ties.
pub open spec fn naive_extremum<T: NativeType>(
    direction: Direction,
    values: Seq<T>,
    validity: Seq<bool>,
    start: int,
    end: int,
) -> Option<T>
    decreases end - start,
{
    if end <= start {
        None
    } else {
        let before = naive_extremum(direction, values, validity, start, end - 1);
        if !validity[end - 1] {
            before
        } else {
            match before {
                None => Some(values[end - 1]),
                Some(best) => if precedes(direction, values[end - 1], best) {
                    Some(values[end - 1])
                } else {
                    Some(best)
                },
            }
        }
    }
}

/// Two reports of an extremum agree: both are absent, or both are present
/// and neither value wins against the other.
pub open spec fn same_extremum<T: NativeType>(a: Option<T>, b: Option<T>) -> bool {
    match (a, b) {
        (None, None) => true,
        (Some(x), Some(y)) => ties(x, y),
        _ => false,
    }
}

/// `b` is the number `a` with its sign turned, and neither is the sentinel.
pub open spec fn is_negation<T: NativeType>(a: T, b: T) -> bool {
    !a.nan() && !b.nan() && b.rank() == -a.rank()
}

/// Both reports are absent, or the second holds the negation of the first.
pub open spec fn negated_extremum<T: NativeType>(a: Option<T>, b: Option<T>) -> bool {
    match (a, b) {
        (None, None) => true,
        (Some(x), Some(y)) => is_negation(x, y),
        _ => false,
    }
}

/// The plain scan finds nothing in a window without a present entry, and
/// otherwise the last of the window's extrema.
pub proof fn lemma_naive_extremum_is_last<T: NativeType>(
    direction: Direction,
    values: Seq<T>,
    validity: Seq<bool>,
    start: int,
    end: int,
)
    requires
        start <= end,
    ensures
        match naive_extremum(direction, values, validity, start, end) {
            None => all_null(validity, start, end),
            Some(v) => exists|at: int|
                #[trigger] is_last_extremum_at(direction, values, validity, start, end, at)
                    && values[at] == v,
        },
    decreases end - start,
{
    if start < end {
        lemma_naive_extremum_is_last(direction, values, validity, start, end - 1);
        let before = naive_extremum(direction, values, validity, start, end - 1);
        if !validity[end - 1] {
            match before {
                None => {
                    assert(all_null(validity, start, end));
                },
                Some(v) => {
                    let at = choose|at: int|
                        #[trigger] is_last_extremum_at(
                            direction,
                            values,
                            validity,
                            start,
                            end - 1,
                            at,
                        ) && values[at] == v;
                    assert(is_last_extremum_at(direction, values, validity, start, end, at));
                },
            }
        } else {
            match before {
                None => {
                    assert(is_last_extremum_at(direction, values, validity, start, end, end - 1));
                },
                Some(v) => {
                    let at = choose|at: int|
                        #[trigger] is_last_extremum_at(
                            direction,
                            values,
                            validity,
                            start,
                            end - 1,
                            at,
                        ) && values[at] == v;
                    if precedes(direction, values[end - 1], v) {
                        assert(is_last_extremum_at(
                            direction,
                            values,
                            validity,
                            start,
                            end,
                            end - 1,
                        ));
                    } else {
                        assert(is_last_extremum_at(direction, values, validity, start, end, at));
                    }
                },
            }
        }
    }
}

/// A window has one last extremum, and the plain scan reports its value.
pub proof fn lemma_last_extremum_is_naive<T: NativeType>(
    direction: Direction,
    values: Seq<T>,
    validity: Seq<bool>,
    start: int,
    end: int,
    at: int,
)
    requires
        start <= end,
        is_last_extremum_at(direction, values, validity, start, end, at),
    ensures
        naive_extremum(direction, values, validity, start, end) == Some(values[at]),
{
    lemma_naive_extremum_is_last(direction, values, validity, start, end);
    let found = naive_extremum(direction, values, validity, start, end);
    assert(found is Some);
    let other = choose|other: int|
        #[trigger] is_last_extremum_at(direction, values, validity, start, end, other)
            && values[other] == found.unwrap();
    assert(precedes(direction, values[other], values[at]));
    assert(precedes(direction, values[at], values[other]));
    assert(other == at);
}

/// The extremum of a window is determined up to values that tie.
pub proof fn lemma_extremum_unique<T: NativeType>(
    direction: Direction,
    values: Seq<T>,
    validity: Seq<bool>,
    start: int,
    end: int,
    a: Option<T>,
    b: Option<T>,
)
    requires
        is_extremum_of(direction, values, validity, start, end, a),
        is_extremum_of(direction, values, validity, start, end, b),
    ensures
        same_extremum(a, b),
{
    match (a, b) {
        (Some(x), Some(y)) => {
            let at_x = choose|at: int|
                #[trigger] is_extremum_at(direction, values, validity, start, end, at)
                    && values[at] == x;
            let at_y = choose|at: int|
                #[trigger] is_extremum_at(direction, values, validity, start, end, at)
                    && values[at] == y;
            assert(precedes(direction, values[at_x], values[at_y]));
            assert(precedes(direction, values[at_y], values[at_x]));
        },
        (Some(x), None) => {
            let at_x = choose|at: int|
                #[trigger] is_extremum_at(direction, values, validity, start, end, at)
                    && values[at] == x;
            assert(validity[at_x]);
        },
        (None, Some(y)) => {
            let at_y = choose|at: int|
                #[trigger] is_extremum_at(direction, values, validity, start, end, at)
                    && values[at] == y;
            assert(validity[at_y]);
        },
        (None, None) => {},
    }
}

/// Whatever is reported as the extremum of a window agrees with what a plain
/// scan of the whole window finds.
pub proof fn lemma_extremum_matches_naive_scan<T: NativeType>(
    direction: Direction,
    values: Seq<T>,
    validity: Seq<bool>,
    start: int,
    end: int,
    r: Option<T>,
)
    requires
        start <= end,
        is_extremum_of(direction, values, validity, start, end, r),
    ensures
        same_extremum(r, naive_extremum(direction, values, validity, start, end)),
{
    lemma_naive_extremum_is_last(direction, values, validity, start, end);
    let found = naive_extremum(direction, values, validity, start, end);
    if let Some(v) = found {
        let at = choose|at: int|
            #[trigger] is_last_extremum_at(direction, values, validity, start, end, at)
                && values[at] == v;
        assert(is_extremum_at(direction, values, validity, start, end, at));
    }
    lemma_extremum_unique(direction, values, validity, start, end, r, found);
}

/// The maximum of the negated values of a window is the negation of the
/// minimum of its values, for values without the sentinel.
pub proof fn lemma_max_of_negated_window<T: NativeType>(
    values: Seq<T>,
    negated: Seq<T>,
    validity: Seq<bool>,
    start: int,
    end: int,
    min: Option<T>,
    max: Option<T>,
)
    requires
        0 <= start <= end <= values.len(),
        values.len() == negated.len(),
        forall|i: int| 0 <= i < values.len() ==> is_negation(#[trigger] values[i], negated[i]),
        is_extremum_of(Direction::Min, values, validity, start, end, min),
        is_extremum_of(Direction::Max, negated, validity, start, end, max),
    ensures
        negated_extremum(min, max),
{
    match (min, max) {
        (Some(x), Some(y)) => {
            let at_x = choose|at: int|
                #[trigger] is_extremum_at(Direction::Min, values, validity, start, end, at)
                    && values[at] == x;
            let at_y = choose|at: int|
                #[trigger] is_extremum_at(Direction::Max, negated, validity, start, end, at)
                    && negated[at] == y;
            assert(is_negation(values[at_x], negated[at_x]));
            assert(is_negation(values[at_y], negated[at_y]));
            assert(precedes(Direction::Min, values[at_x], values[at_y]));
            assert(precedes(Direction::Max, negated[at_y], negated[at_x]));
        },
        (Some(x), None) => {
            let at_x = choose|at: int|
                #[trigger] is_extremum_at(Direction::Min, values, validity, start, end, at)
                    && values[at] == x;
            assert(validity[at_x]);
        },
        (None, Some(y)) => {
            let at_y = choose|at: int|
                #[trigger] is_extremum_at(Direction::Max, negated, validity, start, end, at)
                    && negated[at] == y;
            assert(validity[at_y]);
        },
        (None, None) => {},
    }
}

} // verus!

//! The rolling pass: one window position per entry of the buffer.

use crate::bitmap::{
    count_nulls, count_valid, lemma_count_nulls_bound, lemma_count_nulls_full, Bitmap,
};
use crate::extremum::{
    is_extremum_at, is_extremum_of, is_negation, lemma_extremum_matches_naive_scan,
    lemma_max_of_negated_window, naive_extremum, negated_extremum, same_extremum,
};
use crate::native::NativeType;
use crate::order::Direction;
use crate::window::{MinMaxWindow, WindowState};
use vstd::prelude::*;

verus! {

/// The window that trails position `i`: the `window_size` entries that end with `i`.
pub open spec fn det_offsets_spec(i: int, window_size: int) -> (int, int) {
    (
        if i >= window_size - 1 {
            i - (window_size - 1)
        } else {
            0
        },
        i + 1,
    )
}

/// The window centred on position `i`, cut off at the ends of a buffer of `len` entries.
pub open spec fn det_offsets_center_spec(i: int, window_size: int, len: int) -> (int, int) {
    let right_window = (window_size + 1) / 2;
    (
        if i >= window_size - right_window {
            i - (window_size - right_window)
        } else {
            0
        },
        if i + right_window <= len {
            i + right_window
        } else {
            len
        },
    )
}

/// The window of position `i` under the chosen alignment.
pub open spec fn window_bounds(i: int, window_size: int, len: int, center: bool) -> (int, int) {
    if center {
        det_offsets_center_spec(i, window_size, len)
    } else {
        det_offsets_spec(i, window_size)
    }
}

/// The windows of all `len` positions, in order.
pub open spec fn all_window_bounds(window_size: int, len: int, center: bool) -> Seq<(int, int)> {
    Seq::new(len as nat, |i: int| window_bounds(i, window_size, len, center))
}

/// What a pass puts out at position `i`.
///
/// With fewer than `min_periods` present entries in the window the output is
/// absent. Otherwise it is the extremum of the window, which is absent only
/// if the window holds no present entry.
pub open spec fn position_ok<T: NativeType>(
    direction: Direction,
    values: Seq<T>,
    validity: Seq<bool>,
    bounds: Seq<(int, int)>,
    min_periods: int,
    out: Seq<Option<T>>,
    i: int,
) -> bool {
    let (start, end) = bounds[i];
    if count_valid(validity, start, end) < min_periods {
        out[i] is None
    } else {
        is_extremum_of(direction, values, validity, start, end, out[i])
    }
}

/// The state of the window after position `i` of a pass over the windows
/// `bounds`: the pass starts with the first window and then moves to the
/// window of each position in turn, the first included.
pub open spec fn pass_state<T: NativeType>(
    direction: Direction,
    values: Seq<T>,
    validity: Seq<bool>,
    bounds: Seq<(int, int)>,
    i: int,
) -> WindowState
    decreases i,
{
    if i <= 0 {
        WindowState::initial(direction, values, validity, bounds[0].0, bounds[0].1).slide(
            direction,
            values,
            validity,
            bounds[0].0,
            bounds[0].1,
        )
    } else {
        pass_state(direction, values, validity, bounds, i - 1).slide(
            direction,
            values,
            validity,
            bounds[i].0,
            bounds[i].1,
        )
    }
}

/// The output of position `i`: what the window reports there, if it holds
/// at least `min_periods` present entries.
pub open spec fn pass_output<T: NativeType>(
    direction: Direction,
    values: Seq<T>,
    validity: Seq<bool>,
    bounds: Seq<(int, int)>,
    min_periods: int,
    i: int,
) -> Option<T> {
    if count_valid(validity, bounds[i].0, bounds[i].1) >= min_periods {
        pass_state(direction, values, validity, bounds, i).extremum(values)
    } else {
        None
    }
}

/// `out` holds the output of every position of a pass over the windows `bounds`.
pub open spec fn is_pass_output<T: NativeType>(
    direction: Direction,
    values: Seq<T>,
    validity: Seq<bool>,
    bounds: Seq<(int, int)>,
    min_periods: int,
    out: Seq<Option<T>>,
) -> bool {
    &&& out.len() == bounds.len()
    &&& forall|i: int|
        0 <= i < bounds.len() ==> out[i] == #[trigger] pass_output(
            direction,
            values,
            validity,
            bounds,
            min_periods,
            i,
        )
}

/// `out` meets, position by position, what is to be put out for the windows `bounds`.
pub open spec fn pass_output_ok<T: NativeType>(
    direction: Direction,
    values: Seq<T>,
    validity: Seq<bool>,
    bounds: Seq<(int, int)>,
    min_periods: int,
    out: Seq<Option<T>>,
) -> bool {
    &&& out.len() == bounds.len()
    &&& forall|i: int|
        0 <= i < bounds.len() ==> #[trigger] position_ok(
            direction,
            values,
            validity,
            bounds,
            min_periods,
            out,
            i,
        )
}

/// The windows of a pass lie inside the buffer, hold their position, and
/// never move backward.
pub proof fn lemma_window_bounds(i: int, window_size: int, len: int, center: bool)
    requires
        window_size >= 1,
        0 <= i < len,
    ensures
        0 <= window_bounds(i, window_size, len, center).0 <= i,
        i < window_bounds(i, window_size, len, center).1 <= len,
        i > 0 ==> window_bounds(i - 1, window_size, len, center).0 <= window_bounds(
            i,
            window_size,
            len,
            center,
        ).0,
        i > 0 ==> window_bounds(i - 1, window_size, len, center).1 <= window_bounds(
            i,
            window_size,
            len,
            center,
        ).1,
{
}

/// The bounds of the window that trails position `i`.
pub fn det_offsets(i: usize, window_size: usize, _len: usize) -> (r: (usize, usize))
    requires
        window_size >= 1,
        i < usize::MAX,
    ensures
        r.0 == det_offsets_spec(i as int, window_size as int).0,
        r.1 == det_offsets_spec(i as int, window_size as int).1,
{
    (i.saturating_sub(window_size - 1), i + 1)
}

/// The bounds of the window centred on position `i`.
pub fn det_offsets_center(i: usize, window_size: usize, len: usize) -> (r: (usize, usize))
    ensures
        r.0 == det_offsets_center_spec(i as int, window_size as int, len as int).0,
        r.1 == det_offsets_center_spec(i as int, window_size as int, len as int).1,
{
    let right_window: usize = window_size / 2 + window_size % 2;
    let end: usize = if i >= len {
        len
    } else if right_window >= len - i {
        len
    } else {
        i + right_window
    };
    (i.saturating_sub(window_size - right_window), end)
}

/// Why a pass over given windows cannot be made.
#[derive(Clone, Copy, Debug, PartialEq, Eq)]
pub enum BoundsError {
    /// The buffer and its validity bitmap differ in length.
    LengthMismatch,
    /// The window at `position` is no range of the buffer: it ends before it
    /// starts, or behind the end of the buffer.
    OutOfRange { position: usize },
    /// The window at `position` starts or ends before the window in front of it does.
    MovesBackward { position: usize },
}

/// The windows of a pass as ranges of integers.
pub open spec fn int_bounds(bounds: Seq<(usize, usize)>) -> Seq<(int, int)> {
    Seq::new(bounds.len(), |i: int| (bounds[i].0 as int, bounds[i].1 as int))
}

/// The window at `i` is a range of a buffer of `len` entries.
pub open spec fn bound_in_range(bounds: Seq<(usize, usize)>, len: int, i: int) -> bool {
    bounds[i].0 <= bounds[i].1 <= len
}

/// The window at `i` neither starts nor ends before the window in front of it.
pub open spec fn bound_moves_forward(bounds: Seq<(usize, usize)>, i: int) -> bool {
    i > 0 ==> bounds[i - 1].0 <= bounds[i].0 && bounds[i - 1].1 <= bounds[i].1
}

/// The window at `i` is a range of the buffer and does not move backward.
pub open spec fn bound_ok(bounds: Seq<(usize, usize)>, len: int, i: int) -> bool {
    bound_in_range(bounds, len, i) && bound_moves_forward(bounds, i)
}

/// The first `n` windows are ranges of the buffer and none moves backward.
pub open spec fn bounds_ok_until(bounds: Seq<(usize, usize)>, len: int, n: int) -> bool {
    forall|i: int| 0 <= i < n ==> #[trigger] bound_ok(bounds, len, i)
}

/// `fault` names the first window that is out of range or moves backward.
pub open spec fn is_bounds_fault(bounds: Seq<(usize, usize)>, len: int, fault: BoundsError) -> bool {
    match fault {
        BoundsError::LengthMismatch => false,
        BoundsError::OutOfRange { position } => {
            &&& position < bounds.len()
            &&& bounds_ok_until(bounds, len, position as int)
            &&& !bound_in_range(bounds, len, position as int)
        },
        BoundsError::MovesBackward { position } => {
            &&& position < bounds.len()
            &&& bounds_ok_until(bounds, len, position as int)
            &&& bound_in_range(bounds, len, position as int)
            &&& !bound_moves_forward(bounds, position as int)
        },
    }
}

/// Checks that every window is a range of a buffer of `len` entries and that
/// no window moves backward. The first window that fails is reported.
pub fn check_bounds(bounds: &[(usize, usize)], len: usize) -> (r: Result<(), BoundsError>)
    ensures
        match r {
            Ok(_) => bounds_ok_until(bounds@, len as int, bounds@.len() as int),
            Err(fault) => is_bounds_fault(bounds@, len as int, fault),
        },
{
    let mut i: usize = 0;
    while i < bounds.len()
        invariant
            i <= bounds@.len(),
            bounds_ok_until(bounds@, len as int, i as int),
        decreases bounds@.len() - i,
    {
        let (start, end) = bounds[i];
        if start > end || end > len {
            return Err(BoundsError::OutOfRange { position: i });
        }
        if i > 0 {
            let (last_start, last_end) = bounds[i - 1];
            if start < last_start || end < last_end {
                return Err(BoundsError::MovesBackward { position: i });
            }
        }
        assert(bound_ok(bounds@, len as int, i as int));
        i += 1;
    }
    Ok(())
}

/// Moves the window to `[start, end)` and gives the output of that position:
/// the extremum, if the window holds at least `min_periods` present entries.
fn roll_to<T: NativeType>(
    window: &mut MinMaxWindow<'_, T>,
    start: usize,
    end: usize,
    min_periods: usize,
) -> (item: Option<T>)
    requires
        old(window).wf(),
        old(window).last_start() <= start,
        old(window).last_end() <= end,
        start <= end <= old(window).values().len(),
    ensures
        final(window).wf(),
        final(window).direction() == old(window).direction(),
        final(window).values() == old(window).values(),
        final(window).validity() == old(window).validity(),
        final(window)@ == old(window)@.slide(
            old(window).direction(),
            old(window).values(),
            old(window).validity(),
            start as int,
            end as int,
        ),
        item == if count_valid(old(window).validity(), start as int, end as int)
            >= min_periods {
            final(window).extremum()
        } else {
            None
        },
        count_valid(old(window).validity(), start as int, end as int) >= min_periods
            ==> is_extremum_of(
            old(window).direction(),
            old(window).values(),
            old(window).validity(),
            start as int,
            end as int,
            item,
        ),
{
    let agg = window.update(start, end);
    match agg {
        Some(val) => {
            if window.is_valid(min_periods) {
                Some(val)
            } else {
                None
            }
        },
        None => None,
    }
}

/// Runs one pass over windows that are known to be ranges of the buffer and
/// never to move backward.
fn roll_over<T: NativeType>(
    direction: Direction,
    values: &[T],
    validity: &Bitmap,
    bounds: &[(usize, usize)],
    min_periods: usize,
) -> (out: Vec<Option<T>>)
    requires
        values.len() == validity@.len(),
        bounds_ok_until(bounds@, values.len() as int, bounds@.len() as int),
    ensures
        is_pass_output(
            direction,
            values@,
            validity@,
            int_bounds(bounds@),
            min_periods as int,
            out@,
        ),
        pass_output_ok(
            direction,
            values@,
            validity@,
            int_bounds(bounds@),
            min_periods as int,
            out@,
        ),
{
    let len: usize = values.len();
    let n: usize = bounds.len();
    let mut out: Vec<Option<T>> = Vec::new();
    if n == 0 {
        return out;
    }
    let ghost windows = int_bounds(bounds@);
    assert(bound_ok(bounds@, len as int, 0));
    let (start, end) = bounds[0];
    let mut window = MinMaxWindow::new(direction, values, validity, start, end);
    let mut idx: usize = 0;
    while idx < n
        invariant
            len == values.len(),
            len == validity@.len(),
            n == bounds@.len(),
            windows == int_bounds(bounds@),
            bounds_ok_until(bounds@, len as int, n as int),
            idx <= n,
            out.len() == idx,
            window.wf(),
            window.direction() == direction,
            window.values() == values@,
            window.validity() == validity@,
            window@ == if idx == 0 {
                WindowState::initial(direction, values@, validity@, windows[0].0, windows[0].1)
            } else {
                pass_state(direction, values@, validity@, windows, idx - 1)
            },
            window.last_start() == windows[if idx == 0 {
                0
            } else {
                idx - 1
            }].0,
            window.last_end() == windows[if idx == 0 {
                0
            } else {
                idx - 1
            }].1,
            forall|k: int|
                0 <= k < idx ==> out@[k] == #[trigger] pass_output(
                    direction,
                    values@,
                    validity@,
                    windows,
                    min_periods as int,
                    k,
                ),
            forall|k: int|
                0 <= k < idx ==> #[trigger] position_ok(
                    direction,
                    values@,
                    validity@,
                    windows,
                    min_periods as int,
                    out@,
                    k,
                ),
        decreases n - idx,
    {
        assert(bound_ok(bounds@, len as int, idx as int));
        let (start, end) = bounds[idx];
        let ghost before = out@;
        let item = roll_to(&mut window, start, end, min_periods);
        out.push(item);
        proof {
            assert forall|k: int| 0 <= k < idx + 1 implies #[trigger] position_ok(
                direction,
                values@,
                validity@,
                windows,
                min_periods as int,
                out@,
                k,
            ) by {
                if k < idx {
                    assert(position_ok(
                        direction,
                        values@,
                        validity@,
                        windows,
                        min_periods as int,
                        before,
                        k,
                    ));
                    assert(out@[k] == before[k]);
                }
            }
        }
        idx += 1;
    }
    out
}

/// Runs one pass with windows of `window_size` entries, trailing or centred.
fn rolling_apply_agg_window<T: NativeType>(
    direction: Direction,
    values: &[T],
    validity: &Bitmap,
    window_size: usize,
    min_periods: usize,
    center: bool,
) -> (out: Vec<Option<T>>)
    requires
        values.len() == validity@.len(),
        window_size >= 1,
    ensures
        is_pass_output(
            direction,
            values@,
            validity@,
            all_window_bounds(window_size as int, values.len() as int, center),
            min_periods as int,
            out@,
        ),
        pass_output_ok(
            direction,
            values@,
            validity@,
            all_window_bounds(window_size as int, values.len() as int, center),
            min_periods as int,
            out@,
        ),
{
    let len: usize = values.len();
    let mut bounds: Vec<(usize, usize)> = Vec::new();
    let mut idx: usize = 0;
    while idx < len
        invariant
            window_size >= 1,
            idx <= len,
            bounds.len() == idx,
            bounds_ok_until(bounds@, len as int, idx as int),
            forall|k: int|
                0 <= k < idx ==> (#[trigger] bounds@[k]).0 == window_bounds(
                    k,
                    window_size as int,
                    len as int,
                    center,
                ).0 && bounds@[k].1 == window_bounds(k, window_size as int, len as int, center).1,
        decreases len - idx,
    {
        proof {
            lemma_window_bounds(idx as int, window_size as int, len as int, center);
        }
        let ghost before = bounds@;
        let window = if center {
            det_offsets_center(idx, window_size, len)
        } else {
            det_offsets(idx, window_size, len)
        };
        bounds.push(window);
        proof {
            assert forall|k: int| 0 <= k < idx + 1 implies #[trigger] bound_ok(
                bounds@,
                len as int,
                k,
            ) by {
                if k < idx {
                    assert(bound_ok(before, len as int, k));
                    assert(bounds@[k] == before[k]);
                    if k > 0 {
                        assert(bounds@[k - 1] == before[k - 1]);
                    }
                } else if k > 0 {
                    assert(bounds@[k - 1] == before[k - 1]);
                }
            }
        }
        idx += 1;
    }
    assert(int_bounds(bounds@) =~= all_window_bounds(window_size as int, len as int, center));
    roll_over(direction, values, validity, bounds.as_slice(), min_periods)
}

/// The rolling minimum of `values` over windows of `window_size` entries.
///
/// Position `i` gets the smallest present value of its window, which trails
/// `i` or, with `center`, is centred on it. The output is absent where the
/// window holds fewer than `min_periods` present entries.
pub fn rolling_min<T: NativeType>(
    values: &[T],
    validity: &Bitmap,
    window_size: usize,
    min_periods: usize,
    center: bool,
) -> (out: Vec<Option<T>>)
    requires
        values.len() == validity@.len(),
        window_size >= 1,
    ensures
        is_pass_output(
            Direction::Min,
            values@,
            validity@,
            all_window_bounds(window_size as int, values.len() as int, center),
            min_periods as int,
            out@,
        ),
        pass_output_ok(
            Direction::Min,
            values@,
            validity@,
            all_window_bounds(window_size as int, values.len() as int, center),
            min_periods as int,
            out@,
        ),
{
    rolling_apply_agg_window(Direction::Min, values, validity, window_size, min_periods, center)
}

/// The rolling maximum of `values` over windows of `window_size` entries.
///
/// Position `i` gets the largest present value of its window, which trails
/// `i` or, with `center`, is centred on it. The output is absent where the
/// window holds fewer than `min_periods` present entries.
pub fn rolling_max<T: NativeType>(
    values: &[T],
    validity: &Bitmap,
    window_size: usize,
    min_periods: usize,
    center: bool,
) -> (out: Vec<Option<T>>)
    requires
        values.len() == validity@.len(),
        window_size >= 1,
    ensures
        is_pass_output(
            Direction::Max,
            values@,
            validity@,
            all_window_bounds(window_size as int, values.len() as int, center),
            min_periods as int,
            out@,
        ),
        pass_output_ok(
            Direction::Max,
            values@,
            validity@,
            all_window_bounds(window_size as int, values.len() as int, center),
            min_periods as int,
            out@,
        ),
{
    rolling_apply_agg_window(Direction::Max, values, validity, window_size, min_periods, center)
}

/// Runs one pass over the given windows, one output per window.
///
/// The windows are checked before anything is scanned: the buffer and the
/// bitmap must have one length, every window must be a range of the buffer,
/// and no window may start or end before the one in front of it.
pub fn rolling_over_bounds<T: NativeType>(
    direction: Direction,
    values: &[T],
    validity: &Bitmap,
    bounds: &[(usize, usize)],
    min_periods: usize,
) -> (r: Result<Vec<Option<T>>, BoundsError>)
    ensures
        match r {
            Ok(out) => {
                &&& values.len() == validity@.len()
                &&& bounds_ok_until(bounds@, values.len() as int, bounds@.len() as int)
                &&& is_pass_output(
                    direction,
                    values@,
                    validity@,
                    int_bounds(bounds@),
                    min_periods as int,
                    out@,
                )
                &&& pass_output_ok(
                    direction,
                    values@,
                    validity@,
                    int_bounds(bounds@),
                    min_periods as int,
                    out@,
                )
            },
            Err(BoundsError::LengthMismatch) => values.len() != validity@.len(),
            Err(fault) => values.len() == validity@.len() && is_bounds_fault(
                bounds@,
                values.len() as int,
                fault,
            ),
        },
{
    if values.len() != validity.len() {
        return Err(BoundsError::LengthMismatch);
    }
    match check_bounds(bounds, values.len()) {
        Err(fault) => Err(fault),
        Ok(_) => Ok(roll_over(direction, values, validity, bounds, min_periods)),
    }
}

/// Wherever a pass lets a window through, it puts out what a plain scan of
/// the whole window finds.
pub proof fn lemma_pass_matches_naive_scan<T: NativeType>(
    direction: Direction,
    values: Seq<T>,
    validity: Seq<bool>,
    bounds: Seq<(int, int)>,
    min_periods: int,
    out: Seq<Option<T>>,
    i: int,
)
    requires
        pass_output_ok(direction, values, validity, bounds, min_periods, out),
        0 <= i < bounds.len(),
        bounds[i].0 <= bounds[i].1,
        count_valid(validity, bounds[i].0, bounds[i].1) >= min_periods,
    ensures
        same_extremum(
            out[i],
            naive_extremum(direction, values, validity, bounds[i].0, bounds[i].1),
        ),
{
    assert(position_ok(direction, values, validity, bounds, min_periods, out, i));
    lemma_extremum_matches_naive_scan(
        direction,
        values,
        validity,
        bounds[i].0,
        bounds[i].1,
        out[i],
    );
}

/// A pass puts out a value exactly where the window holds a present entry
/// and at least `min_periods` of them.
pub proof fn lemma_pass_output_present<T: NativeType>(
    direction: Direction,
    values: Seq<T>,
    validity: Seq<bool>,
    bounds: Seq<(int, int)>,
    min_periods: int,
    out: Seq<Option<T>>,
    i: int,
)
    requires
        pass_output_ok(direction, values, validity, bounds, min_periods, out),
        0 <= i < bounds.len(),
    ensures
        out[i] is Some <==> {
            &&& bounds[i].1 - bounds[i].0 - count_nulls(validity, bounds[i].0, bounds[i].1) > 0
            &&& bounds[i].1 - bounds[i].0 - count_nulls(validity, bounds[i].0, bounds[i].1)
                >= min_periods
        },
{
    assert(position_ok(direction, values, validity, bounds, min_periods, out, i));
    let (start, end) = bounds[i];
    if start <= end {
        lemma_count_nulls_full(validity, start, end);
        lemma_count_nulls_bound(validity, start, end);
    } else {
        assert(count_nulls(validity, start, end) == 0);
    }
    if let Some(v) = out[i] {
        if count_valid(validity, start, end) >= min_periods {
            let at = choose|at: int|
                #[trigger] is_extremum_at(direction, values, validity, start, end, at)
                    && values[at] == v;
            assert(validity[at]);
        }
    }
}

/// A maximum pass over negated values puts out the negation of what a
/// minimum pass over the values puts out, position by position, for values
/// without the sentinel.
pub proof fn lemma_max_of_negated_pass<T: NativeType>(
    values: Seq<T>,
    negated: Seq<T>,
    validity: Seq<bool>,
    bounds: Seq<(int, int)>,
    min_periods: int,
    mins: Seq<Option<T>>,
    maxs: Seq<Option<T>>,
    i: int,
)
    requires
        values.len() == negated.len(),
        forall|k: int| 0 <= k < values.len() ==> is_negation(#[trigger] values[k], negated[k]),
        forall|k: int|
            0 <= k < bounds.len() ==> 0 <= (#[trigger] bounds[k]).0 <= bounds[k].1
                <= values.len(),
        pass_output_ok(Direction::Min, values, validity, bounds, min_periods, mins),
        pass_output_ok(Direction::Max, negated, validity, bounds, min_periods, maxs),
        0 <= i < bounds.len(),
    ensures
        negated_extremum(mins[i], maxs[i]),
{
    assert(position_ok(Direction::Min, values, validity, bounds, min_periods, mins, i));
    assert(position_ok(Direction::Max, negated, validity, bounds, min_periods, maxs, i));
    let (start, end) = bounds[i];
    if count_valid(validity, start, end) >= min_periods {
        lemma_max_of_negated_window(values, negated, validity, start, end, mins[i], maxs[i]);
    }
}

} // verus!

//! Scans over a stretch of the buffer: the sorted run behind an extremum, and
//! the extremum of a range.

use crate::bitmap::{
    all_null, count_nulls, lemma_count_nulls_bound, lemma_count_nulls_full,
    lemma_count_nulls_split, Bitmap,
};
use crate::extremum::is_extremum_at;
use crate::native::NativeType;
use crate::order::{precedes, Direction};
use vstd::prelude::*;

verus! {

/// The entry at `from` and the present entries after it, up to `to`, never get
/// better from one to the next: none of them wins outright against one before it.
pub open spec fn run_sorted<T: NativeType>(
    direction: Direction,
    values: Seq<T>,
    validity: Seq<bool>,
    from: int,
    to: int,
) -> bool {
    forall|i: int, j: int|
        #![trigger values[i], values[j]]
        from <= i < j < to && j < values.len() && (i == from || validity[i]) && validity[j]
            ==> precedes(direction, values[i], values[j])
}

/// `to` is where the sorted run behind `from` ends: the run is sorted up to
/// `to`, and `to` holds the entry that breaks it or is the last index of the buffer.
pub open spec fn is_run_end<T: NativeType>(
    direction: Direction,
    values: Seq<T>,
    validity: Seq<bool>,
    from: int,
    to: int,
) -> bool {
    &&& from <= to < values.len()
    &&& run_sorted(direction, values, validity, from, to)
    &&& (to == values.len() - 1 || !run_sorted(direction, values, validity, from, to + 1))
}

/// Where the sorted run behind `from` ends.
pub open spec fn run_end<T: NativeType>(
    direction: Direction,
    values: Seq<T>,
    validity: Seq<bool>,
    from: int,
) -> int {
    choose|to: int| is_run_end(direction, values, validity, from, to)
}

/// A sorted run has one end.
pub proof fn lemma_run_end<T: NativeType>(
    direction: Direction,
    values: Seq<T>,
    validity: Seq<bool>,
    from: int,
    to: int,
)
    requires
        is_run_end(direction, values, validity, from, to),
    ensures
        run_end(direction, values, validity, from) == to,
{
    let other = run_end(direction, values, validity, from);
    assert(is_run_end(direction, values, validity, from, other));
    if other < to {
        assert(run_sorted(direction, values, validity, from, other + 1));
    } else if to < other {
        assert(run_sorted(direction, values, validity, from, to + 1));
    }
}

/// Every entry of the buffer has a sorted run behind it, and the run has an end.
pub proof fn lemma_run_end_exists<T: NativeType>(
    direction: Direction,
    values: Seq<T>,
    validity: Seq<bool>,
    from: int,
    to: int,
)
    requires
        0 <= from <= to < values.len(),
        run_sorted(direction, values, validity, from, to),
    ensures
        is_run_end(
            direction,
            values,
            validity,
            from,
            run_end(direction, values, validity, from),
        ),
    decreases values.len() - to,
{
    if to == values.len() - 1 || !run_sorted(direction, values, validity, from, to + 1) {
        assert(is_run_end(direction, values, validity, from, to));
    } else {
        lemma_run_end_exists(direction, values, validity, from, to + 1);
    }
}

/// The present entries of `[from, to)` never get better from one to the next.
pub open spec fn sorted_between<T: NativeType>(
    direction: Direction,
    values: Seq<T>,
    validity: Seq<bool>,
    from: int,
    to: int,
) -> bool {
    forall|i: int, j: int|
        #![trigger values[i], values[j]]
        from <= i < j < to && j < values.len() && validity[i] && validity[j] ==> precedes(
            direction,
            values[i],
            values[j],
        )
}

/// The index of the first present entry of `[start, end)`, or `end` if all are null.
pub open spec fn first_valid(validity: Seq<bool>, start: int, end: int) -> int
    decreases end - start,
{
    if start >= end {
        end
    } else if validity[start] {
        start
    } else {
        first_valid(validity, start + 1, end)
    }
}

/// `first_valid` lies in `[start, end]`, is present unless it is `end`, and
/// only nulls come before it.
pub proof fn lemma_first_valid(validity: Seq<bool>, start: int, end: int)
    requires
        start <= end,
    ensures
        start <= first_valid(validity, start, end) <= end,
        all_null(validity, start, first_valid(validity, start, end)),
        first_valid(validity, start, end) < end ==> validity[first_valid(validity, start, end)],
    decreases end - start,
{
    if start < end && !validity[start] {
        lemma_first_valid(validity, start + 1, end);
    }
}

/// The entries a range scan looks at: the first present one, and the present
/// ones from `sorted_to` on. What lies between is known to be sorted and skipped.
pub open spec fn scan_candidate(
    validity: Seq<bool>,
    start: int,
    end: int,
    sorted_to: int,
    k: int,
) -> bool {
    let first = first_valid(validity, start, end);
    k == first || (first < k && sorted_to <= k < end && sorted_to < end && validity[k])
}

/// `at` is the entry a range scan settles on: the best of the candidates, and
/// among equally good ones the last.
pub open spec fn is_scan_choice<T: NativeType>(
    direction: Direction,
    values: Seq<T>,
    validity: Seq<bool>,
    start: int,
    end: int,
    sorted_to: int,
    at: int,
) -> bool {
    &&& scan_candidate(validity, start, end, sorted_to, at)
    &&& forall|k: int| #[trigger]
        scan_candidate(validity, start, end, sorted_to, k) ==> precedes(
            direction,
            values[at],
            values[k],
        )
    &&& forall|k: int| #[trigger]
        scan_candidate(validity, start, end, sorted_to, k) && at < k ==> !precedes(
            direction,
            values[k],
            values[at],
        )
}

/// The index a range scan settles on, if the range holds a present entry.
pub open spec fn scan_choice<T: NativeType>(
    direction: Direction,
    values: Seq<T>,
    validity: Seq<bool>,
    start: int,
    end: int,
    sorted_to: int,
) -> Option<int> {
    if first_valid(validity, start, end) < end {
        Some(
            choose|at: int|
                is_scan_choice(direction, values, validity, start, end, sorted_to, at),
        )
    } else {
        None
    }
}

/// A range scan can settle on one entry only.
pub proof fn lemma_scan_choice<T: NativeType>(
    direction: Direction,
    values: Seq<T>,
    validity: Seq<bool>,
    start: int,
    end: int,
    sorted_to: int,
    at: int,
)
    requires
        first_valid(validity, start, end) < end,
        is_scan_choice(direction, values, validity, start, end, sorted_to, at),
    ensures
        scan_choice(direction, values, validity, start, end, sorted_to) == Some(at),
{
    let other = choose|other: int|
        is_scan_choice(direction, values, validity, start, end, sorted_to, other);
    assert(is_scan_choice(direction, values, validity, start, end, sorted_to, other));
    assert(scan_candidate(validity, start, end, sorted_to, at));
    assert(scan_candidate(validity, start, end, sorted_to, other));
    assert(precedes(direction, values[at], values[other]));
    assert(precedes(direction, values[other], values[at]));
}

/// In a range of one entry the scan settles on that entry if it is present.
pub proof fn lemma_scan_choice_single<T: NativeType>(
    direction: Direction,
    values: Seq<T>,
    validity: Seq<bool>,
    at: int,
    sorted_to: int,
)
    ensures
        scan_choice(direction, values, validity, at, at + 1, sorted_to) == if validity[at] {
            Some(at)
        } else {
            None
        },
{
    assert(first_valid(validity, at + 1, at + 1) == at + 1);
    if validity[at] {
        assert(first_valid(validity, at, at + 1) == at);
        assert(is_scan_choice(direction, values, validity, at, at + 1, sorted_to, at));
        lemma_scan_choice(direction, values, validity, at, at + 1, sorted_to, at);
    } else {
        assert(first_valid(validity, at, at + 1) == at + 1);
    }
}

/// Finds how far the values behind the extremum at `m_idx` stay sorted.
///
/// Walks forward from `m_idx + 1`, skipping nulls, and stops at the first
/// present entry that wins outright against the entry compared before it: the
/// last present entry passed, or the one at `m_idx`. The index of the entry
/// that stops the walk is returned; without one, the last index of the buffer.
pub fn n_sorted_past<T: NativeType>(
    direction: Direction,
    slice: &[T],
    validity: &Bitmap,
    m_idx: usize,
) -> (sorted_to: usize)
    requires
        slice.len() == validity@.len(),
        m_idx < slice.len(),
    ensures
        is_run_end(direction, slice@, validity@, m_idx as int, sorted_to as int),
        sorted_to == run_end(direction, slice@, validity@, m_idx as int),
{
    let len: usize = slice.len();
    let mut last_val: T = slice[m_idx];
    let mut n: usize = 0;
    let mut i: usize = m_idx + 1;
    let ghost mut last_idx: int = m_idx as int;
    while i < len
        invariant_except_break
            n == i - m_idx - 1,
        invariant
            len == slice.len(),
            len == validity@.len(),
            m_idx < i <= len,
            m_idx <= last_idx < i,
            last_idx == m_idx || validity@[last_idx],
            last_val == slice@[last_idx],
            forall|k: int| last_idx < k < i ==> !#[trigger] validity@[k],
            run_sorted(direction, slice@, validity@, m_idx as int, i as int),
        ensures
            (i < len && n == i - m_idx && !run_sorted(
                direction,
                slice@,
                validity@,
                m_idx as int,
                i + 1,
            )) || (i == len && n == i - m_idx - 1),
        decreases len - i,
    {
        n += 1;
        if validity.get_bit(i) {
            let val: T = slice[i];
            if direction.breaks_run(&last_val, &val) {
                proof {
                    assert(!precedes(direction, slice@[last_idx], slice@[i as int]));
                }
                break ;
            }
            proof {
                assert forall|a: int, b: int|
                    #![trigger slice@[a], slice@[b]]
                    m_idx <= a < b < i + 1 && b < slice@.len() && (a == m_idx || validity@[a])
                        && validity@[b] implies precedes(direction, slice@[a], slice@[b]) by {
                    if b == i {
                        if a != last_idx {
                            assert(precedes(direction, slice@[a], slice@[last_idx]));
                        }
                    }
                }
                last_idx = i as int;
            }
            last_val = val;
        }
        i += 1;
    }
    proof {
        lemma_run_end(direction, slice@, validity@, m_idx as int, n + m_idx);
    }
    n + m_idx
}

/// Finds the extremum of `[start, end)` and counts the nulls of that range.
///
/// The first present entry is the first candidate. Where the range is known
/// to be sorted up to `sorted_to`, the entries before `sorted_to` cannot win
/// against it and are not compared; each present entry from there on replaces
/// the candidate if it wins or ties. Returns the index and value of the entry
/// chosen, or `None` if the range holds no present entry, and the number of
/// nulls in the range.
pub fn init_get_m_m_idx_and_null_count<T: NativeType>(
    direction: Direction,
    slice: &[T],
    validity: &Bitmap,
    start: usize,
    end: usize,
    sorted_to: usize,
) -> (r: (Option<(usize, T)>, usize))
    requires
        slice.len() == validity@.len(),
        start <= end <= slice.len(),
    ensures
        r.1 == count_nulls(validity@, start as int, end as int),
        r.0 is None <==> all_null(validity@, start as int, end as int),
        r.0 is None <==> first_valid(validity@, start as int, end as int) == end,
        r.0 is None <==> scan_choice(
            direction,
            slice@,
            validity@,
            start as int,
            end as int,
            sorted_to as int,
        ) is None,
        r.0 matches Some((at, m)) ==> {
            &&& m == slice@[at as int]
            &&& scan_choice(
                direction,
                slice@,
                validity@,
                start as int,
                end as int,
                sorted_to as int,
            ) == Some(at as int)
            &&& is_scan_choice(
                direction,
                slice@,
                validity@,
                start as int,
                end as int,
                sorted_to as int,
                at as int,
            )
            &&& sorted_between(
                direction,
                slice@,
                validity@,
                start as int,
                if sorted_to < end {
                    sorted_to as int
                } else {
                    end as int
                },
            ) ==> is_extremum_at(
                direction,
                slice@,
                validity@,
                start as int,
                end as int,
                at as int,
            )
        },
{
    let ilen: usize = end - start;
    let mut leading_nc: usize = 0;
    while leading_nc < ilen
        invariant
            ilen == end - start,
            start <= end <= validity@.len(),
            leading_nc <= ilen,
            all_null(validity@, start as int, start + leading_nc),
            first_valid(validity@, start as int, end as int) == first_valid(
                validity@,
                start + leading_nc,
                end as int,
            ),
        ensures
            leading_nc == ilen || validity@[start + leading_nc],
        decreases ilen - leading_nc,
    {
        if validity.get_bit(start + leading_nc) {
            break ;
        }
        leading_nc += 1;
    }
    proof {
        lemma_count_nulls_full(validity@, start as int, start + leading_nc);
        lemma_first_valid(validity@, start as int, end as int);
    }
    if leading_nc == ilen {
        return (None, ilen);
    }
    let vstart: usize = start + leading_nc;
    let mut m: T = slice[vstart];
    let mut m_idx: usize = vstart;
    proof {
        assert(first_valid(validity@, start as int, end as int) == vstart);
        assert(!all_null(validity@, start as int, end as int));
        lemma_count_nulls_split(validity@, start as int, vstart as int, end as int);
    }
    if sorted_to >= end {
        let remaining_nc: usize = validity.null_count_range(vstart, end - vstart);
        proof {
            lemma_count_nulls_bound(validity@, vstart as int, end as int);
            lemma_scan_choice(
                direction,
                slice@,
                validity@,
                start as int,
                end as int,
                sorted_to as int,
                m_idx as int,
            );
        }
        (Some((m_idx, m)), leading_nc + remaining_nc)
    } else {
        let tstart: usize = if vstart + 1 > sorted_to {
            vstart + 1
        } else {
            sorted_to
        };
        let mut remaining_nc: usize = validity.null_count_range(vstart, tstart - vstart);
        let mut i: usize = tstart;
        proof {
            lemma_count_nulls_bound(validity@, vstart as int, tstart as int);
        }
        while i < end
            invariant
                slice.len() == validity@.len(),
                start <= vstart < tstart <= i <= end <= slice.len(),
                sorted_to <= tstart,
                sorted_to < end,
                tstart == vstart + 1 || tstart == sorted_to,
                first_valid(validity@, start as int, end as int) == vstart,
                remaining_nc == count_nulls(validity@, vstart as int, i as int),
                remaining_nc <= i - vstart,
                vstart <= m_idx < i,
                m == slice@[m_idx as int],
                scan_candidate(validity@, start as int, end as int, sorted_to as int, m_idx as int),
                forall|k: int| #[trigger]
                    scan_candidate(validity@, start as int, end as int, sorted_to as int, k) && k
                        < i ==> precedes(direction, slice@[m_idx as int], slice@[k]),
                forall|k: int| #[trigger]
                    scan_candidate(validity@, start as int, end as int, sorted_to as int, k)
                        && m_idx < k < i ==> !precedes(direction, slice@[k], slice@[m_idx as int]),
            decreases end - i,
        {
            if !validity.get_bit(i) {
                remaining_nc += 1;
            } else {
                let newval: T = slice[i];
                if direction.replaces(&m, &newval) {
                    m = newval;
                    m_idx = i;
                }
            }
            i += 1;
        }
        proof {
            lemma_scan_choice(
                direction,
                slice@,
                validity@,
                start as int,
                end as int,
                sorted_to as int,
                m_idx as int,
            );
            if sorted_between(direction, slice@, validity@, start as int, sorted_to as int) {
                assert forall|j: int| start <= j < end && validity@[j] implies precedes(
                    direction,
                    slice@[m_idx as int],
                    #[trigger] slice@[j],
                ) by {
                    assert(scan_candidate(
                        validity@,
                        start as int,
                        end as int,
                        sorted_to as int,
                        vstart as int,
                    ));
                    if j > vstart && j < sorted_to {
                        assert(precedes(direction, slice@[vstart as int], slice@[j]));
                    } else {
                        assert(scan_candidate(
                            validity@,
                            start as int,
                            end as int,
                            sorted_to as int,
                            j,
                        ));
                    }
                }
            }
        }
        (Some((m_idx, m)), remaining_nc + leading_nc)
    }
}

} // verus!
